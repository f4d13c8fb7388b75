//! Offset assignment and the container writer.
use vstd::prelude::*;
use crate::error::SafetensorError;
use crate::header::{enc_header, infos_model, meta_model, metadata_key, write_header, InfoModel, TensorInfo, MAX_HEADER_LEN};
use crate::json::write_bytes;
use crate::name_map::{has_name, NameMap};
use crate::view::TensorView;

verus! {

/// The bytes of all views, concatenated in order.
pub open spec fn data_concat(s: Seq<(Seq<u8>, TensorView)>) -> Seq<u8>
    decreases s.len(),
{
    if s.len() == 0 {
        Seq::empty()
    } else {
        data_concat(s.drop_last()) + s.last().1.spec_data()
    }
}

/// The header entries for the views: each tensor's range starts where the
/// previous one ends, the first at 0.
pub open spec fn layout(s: Seq<(Seq<u8>, TensorView)>) -> Seq<(Seq<u8>, InfoModel)>
    decreases s.len(),
{
    if s.len() == 0 {
        Seq::empty()
    } else {
        layout(s.drop_last()).push((
            s.last().0,
            InfoModel {
                dtype: s.last().1.spec_dtype(),
                shape: s.last().1.spec_shape(),
                begin: data_concat(s.drop_last()).len(),
                end: data_concat(s).len(),
            },
        ))
    }
}

/// The eight little-endian bytes of `n`.
pub open spec fn le_bytes(n: u64) -> Seq<u8> {
    seq![
        (n & 0xff) as u8,
        ((n >> 8u64) & 0xff) as u8,
        ((n >> 16u64) & 0xff) as u8,
        ((n >> 24u64) & 0xff) as u8,
        ((n >> 32u64) & 0xff) as u8,
        ((n >> 40u64) & 0xff) as u8,
        ((n >> 48u64) & 0xff) as u8,
        ((n >> 56u64) & 0xff) as u8,
    ]
}

/// The header text for the given metadata and views.
pub open spec fn header_text(
    meta: Option<Seq<(Seq<u8>, Seq<u8>)>>,
    s: Seq<(Seq<u8>, TensorView)>,
) -> Seq<u8> {
    enc_header(meta, layout(s))
}

/// The length prefix followed by the header text.
pub open spec fn header_block(meta: Option<Seq<(Seq<u8>, Seq<u8>)>>, s: Seq<(Seq<u8>, TensorView)>) -> Seq<u8> {
    le_bytes(header_text(meta, s).len() as u64) + header_text(meta, s)
}

/// The whole container.
pub open spec fn container(meta: Option<Seq<(Seq<u8>, Seq<u8>)>>, s: Seq<(Seq<u8>, TensorView)>) -> Seq<u8> {
    header_block(meta, s) + data_concat(s)
}

/// Why encoding fails, if it does: a tensor under the reserved metadata key,
/// a data block too large to address, or a header over the ceiling.
pub open spec fn encode_error(
    meta: Option<Seq<(Seq<u8>, Seq<u8>)>>,
    s: Seq<(Seq<u8>, TensorView)>,
) -> Option<SafetensorError> {
    if has_name(s, metadata_key()) {
        Some(SafetensorError::MalformedHeader)
    } else if data_concat(s).len() > usize::MAX {
        Some(SafetensorError::ShapeOverflow)
    } else if header_text(meta, s).len() > MAX_HEADER_LEN {
        Some(SafetensorError::HeaderTooLarge)
    } else {
        None
    }
}

pub proof fn lemma_concat_prefix(s: Seq<(Seq<u8>, TensorView)>, i: int)
    requires
        0 <= i <= s.len(),
    ensures
        data_concat(s.subrange(0, i)).len() <= data_concat(s).len(),
    decreases s.len() - i,
{
    if i < s.len() {
        lemma_concat_prefix(s, i + 1);
        assert(s.subrange(0, i + 1).drop_last() =~= s.subrange(0, i));
    } else {
        assert(s.subrange(0, i) =~= s);
    }
}

/// Assigns each tensor its byte range in name order; fails `ShapeOverflow`
/// when the data block's length does not fit in a `usize`.
pub fn assign_offsets(tensors: &NameMap<TensorView>) -> (r: Result<NameMap<TensorInfo>, SafetensorError>)
    requires
        tensors.wf(),
    ensures
        data_concat(tensors@).len() > usize::MAX ==> r == Err::<NameMap<TensorInfo>, _>(SafetensorError::ShapeOverflow),
        data_concat(tensors@).len() <= usize::MAX ==> (r matches Ok(infos) && infos.wf()
            && infos_model(infos) == layout(tensors@)),
{
    let mut infos: NameMap<TensorInfo> = NameMap::new();
    let mut total: usize = 0;
    let mut i: usize = 0;
    assert(tensors@.subrange(0, 0) =~= Seq::<(Seq<u8>, TensorView)>::empty());
    assert(infos_model(infos) =~= layout(tensors@.subrange(0, 0)));
    while i < tensors.len()
        invariant
            i <= tensors@.len(),
            tensors.wf(),
            infos.wf(),
            total as nat == data_concat(tensors@.subrange(0, i as int)).len(),
            infos_model(infos) == layout(tensors@.subrange(0, i as int)),
            infos@.len() == i,
            forall|j: int| 0 <= j < i ==> #[trigger] infos@[j].0 == tensors@[j].0,
        decreases tensors@.len() - i,
    {
        let v = tensors.value_at(i);
        let d = v.data();
        let ghost pre = tensors@.subrange(0, i as int);
        let ghost cur = tensors@.subrange(0, i + 1);
        assert(cur.drop_last() =~= pre);
        let end = match total.checked_add(d.len()) {
            Some(e) => e,
            None => {
                proof { lemma_concat_prefix(tensors@, i + 1); }
                return Err(SafetensorError::ShapeOverflow);
            },
        };
        let shape = vstd::slice::slice_to_vec(v.shape());
        let info = TensorInfo { dtype: v.dtype(), shape, data_offsets: (total, end) };
        let name = vstd::slice::slice_to_vec(tensors.name_at(i));
        proof {
            if i > 0 {
                assert(infos@.last().0 == tensors@[i - 1].0);
                assert(crate::bytes::lex_lt(tensors@[i - 1].0, tensors@[i as int].0));
            }
        }
        let ghost before = infos;
        infos.push_last(name, info);
        i = i + 1;
        total = end;
        assert(infos_model(infos) =~= infos_model(before).push((cur.last().0, info@)));
        assert forall|j: int| 0 <= j < i implies #[trigger] infos@[j].0 == tensors@[j].0 by {
            if j < i - 1 {
                assert(infos@[j] == before@[j]);
            }
        }
    }
    assert(tensors@.subrange(0, i as int) =~= tensors@);
    Ok(infos)
}

/// Appends the eight little-endian bytes of `n`.
fn write_u64_le(out: &mut Vec<u8>, n: u64)
    ensures
        final(out)@ == old(out)@ + le_bytes(n),
{
    out.push((n & 0xff) as u8);
    out.push(((n >> 8u64) & 0xff) as u8);
    out.push(((n >> 16u64) & 0xff) as u8);
    out.push(((n >> 24u64) & 0xff) as u8);
    out.push(((n >> 32u64) & 0xff) as u8);
    out.push(((n >> 40u64) & 0xff) as u8);
    out.push(((n >> 48u64) & 0xff) as u8);
    out.push(((n >> 56u64) & 0xff) as u8);
    assert(final(out)@ =~= old(out)@ + le_bytes(n));
}

/// Encodes the length prefix and the header for `tensors` and `metadata`:
/// what precedes the data block of the container.
pub fn encode_header(tensors: &NameMap<TensorView>, metadata: &Option<NameMap<Vec<u8>>>) -> (r: Result<Vec<u8>, SafetensorError>)
    requires
        tensors.wf(),
    ensures
        match encode_error(meta_model(*metadata), tensors@) {
            Some(e) => r == Err::<Vec<u8>, _>(e),
            None => r matches Ok(b) && b@ == header_block(meta_model(*metadata), tensors@),
        },
{
    let mut key = vstd::slice::slice_to_vec(&[95u8, 95u8, 109u8, 101u8, 116u8, 97u8, 100u8, 97u8, 116u8, 97u8, 95u8, 95u8]);
    assert(key@ =~= metadata_key());
    if tensors.find(key.as_slice()).is_some() {
        return Err(SafetensorError::MalformedHeader);
    }
    let infos = match assign_offsets(tensors) {
        Ok(infos) => infos,
        Err(e) => return Err(e),
    };
    let mut text: Vec<u8> = Vec::new();
    write_header(&mut text, metadata, &infos);
    assert(text@ =~= header_text(meta_model(*metadata), tensors@));
    if text.len() > MAX_HEADER_LEN {
        return Err(SafetensorError::HeaderTooLarge);
    }
    let mut out: Vec<u8> = Vec::new();
    write_u64_le(&mut out, text.len() as u64);
    write_bytes(&mut out, text.as_slice());
    assert(out@ =~= header_block(meta_model(*metadata), tensors@));
    Ok(out)
}

/// Encodes `tensors` and `metadata` as a container: the length prefix, the
/// header, then each tensor's bytes in name order.
pub fn serialize(tensors: &NameMap<TensorView>, metadata: &Option<NameMap<Vec<u8>>>) -> (r: Result<Vec<u8>, SafetensorError>)
    requires
        tensors.wf(),
    ensures
        match encode_error(meta_model(*metadata), tensors@) {
            Some(e) => r == Err::<Vec<u8>, _>(e),
            None => r matches Ok(b) && b@ == container(meta_model(*metadata), tensors@),
        },
{
    let mut out = match encode_header(tensors, metadata) {
        Ok(b) => b,
        Err(e) => return Err(e),
    };
    let ghost head = out@;
    let mut i: usize = 0;
    assert(tensors@.subrange(0, 0) =~= Seq::<(Seq<u8>, TensorView)>::empty());
    while i < tensors.len()
        invariant
            i <= tensors@.len(),
            out@ == head + data_concat(tensors@.subrange(0, i as int)),
        decreases tensors@.len() - i,
    {
        assert(tensors@.subrange(0, i + 1).drop_last() =~= tensors@.subrange(0, i as int));
        write_bytes(&mut out, tensors.value_at(i).data());
        i = i + 1;
        assert(out@ =~= head + data_concat(tensors@.subrange(0, i as int)));
    }
    assert(tensors@.subrange(0, i as int) =~= tensors@);
    Ok(out)
}

} // verus!
