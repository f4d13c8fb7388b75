//! Checking tensor byte ranges, and decoding a whole container's header.
use vstd::prelude::*;
use crate::decode::read_header_text;
use crate::error::SafetensorError;
use crate::header::{infos_model, meta_model, Header, InfoModel, TensorInfo, MAX_HEADER_LEN};
use crate::name_map::NameMap;
use crate::parse::{parse_header_text, HeaderModel};
use crate::view::{byte_size, element_count};

verus! {

/// The unsigned integer of the eight little-endian bytes `b[0..8]`.
pub open spec fn le_u64(b: Seq<u8>) -> u64 {
    (b[0] as u64) | ((b[1] as u64) << 8u64) | ((b[2] as u64) << 16u64) | ((b[3] as u64) << 24u64)
        | ((b[4] as u64) << 32u64) | ((b[5] as u64) << 40u64) | ((b[6] as u64) << 48u64) | ((b[7] as u64) << 56u64)
}

/// A tensor's range is ordered, as long as its dtype and shape ask, and
/// within a data block of `total` bytes.
pub open spec fn info_ok(i: InfoModel, total: nat) -> bool {
    &&& i.begin <= i.end
    &&& i.end - i.begin == byte_size(i.dtype, i.shape)
    &&& i.end <= total
}

/// Two ranges share no byte.
pub open spec fn disjoint(a: InfoModel, b: InfoModel) -> bool {
    a.end <= b.begin || b.end <= a.begin
}

/// Every range is well-formed and no two overlap.
pub open spec fn offsets_valid(t: Seq<(Seq<u8>, InfoModel)>, total: nat) -> bool {
    &&& forall|i: int| 0 <= i < t.len() ==> info_ok(#[trigger] t[i].1, total)
    &&& forall|i: int, j: int| 0 <= i < j < t.len() ==> disjoint(#[trigger] t[i].1, #[trigger] t[j].1)
}

/// What a container's bytes decode to: the offset of the data block and the
/// validated header.
pub open spec fn decode_spec(b: Seq<u8>) -> Result<(nat, HeaderModel), SafetensorError> {
    if b.len() < 8 {
        Err(SafetensorError::TruncatedInput)
    } else {
        let n = le_u64(b) as int;
        if 8 + n > b.len() {
            Err(SafetensorError::TruncatedInput)
        } else if n > MAX_HEADER_LEN {
            Err(SafetensorError::HeaderTooLarge)
        } else {
            match parse_header_text(b.subrange(8, 8 + n)) {
                Err(e) => Err(e),
                Ok(h) => if offsets_valid(h.1, (b.len() - (8 + n)) as nat) {
                    Ok(((8 + n) as nat, h))
                } else {
                    Err(SafetensorError::InvalidOffsets)
                },
            }
        }
    }
}

fn info_valid(info: &TensorInfo, total: usize) -> (r: bool)
    ensures
        r == info_ok(info@, total as nat),
{
    let (b, e) = info.data_offsets;
    if b > e || e > total {
        return false;
    }
    let n = match element_count(info.shape.as_slice()) {
        Ok(n) => n,
        Err(_) => {
            proof {
                let w = info.dtype.spec_width();
                let p = crate::view::shape_product(info.shape@);
                assert(w * p >= p) by (nonlinear_arith) requires w >= 1;
            }
            return false;
        },
    };
    let w = info.dtype.width();
    assert(byte_size(info.dtype, info.shape@) == (n as nat) * (w as nat)) by (nonlinear_arith)
        requires w as nat == info.dtype.spec_width(), n as nat == crate::view::shape_product(info.shape@);
    match n.checked_mul(w) {
        Some(size) => e - b == size,
        None => false,
    }
}

/// Whether every tensor's range is well-formed within `total` bytes and no
/// two ranges overlap.
pub fn check_offsets(tensors: &NameMap<TensorInfo>, total: usize) -> (r: bool)
    ensures
        r == offsets_valid(infos_model(*tensors), total as nat),
{
    let ghost t = infos_model(*tensors);
    let mut i: usize = 0;
    while i < tensors.len()
        invariant
            i <= tensors@.len(),
            t == infos_model(*tensors),
            t.len() == tensors@.len(),
            forall|k: int| 0 <= k < i ==> info_ok(#[trigger] t[k].1, total as nat),
        decreases tensors@.len() - i,
    {
        assert(t[i as int].1 == tensors@[i as int].1@);
        if !info_valid(tensors.value_at(i), total) {
            return false;
        }
        i = i + 1;
    }
    let mut a: usize = 0;
    while a < tensors.len()
        invariant
            a <= tensors@.len(),
            t == infos_model(*tensors),
            t.len() == tensors@.len(),
            forall|k: int| 0 <= k < t.len() ==> info_ok(#[trigger] t[k].1, total as nat),
            forall|x: int, y: int| 0 <= x < y < t.len() && x < a ==> disjoint(#[trigger] t[x].1, #[trigger] t[y].1),
        decreases tensors@.len() - a,
    {
        let mut c: usize = a + 1;
        while c < tensors.len()
            invariant
                a < tensors@.len(),
                a + 1 <= c <= tensors@.len(),
                t == infos_model(*tensors),
                t.len() == tensors@.len(),
                forall|x: int, y: int| 0 <= x < y < t.len() && x < a ==> disjoint(#[trigger] t[x].1, #[trigger] t[y].1),
                forall|y: int| a < y < c ==> disjoint(t[a as int].1, #[trigger] t[y].1),
            decreases tensors@.len() - c,
        {
            let p = tensors.value_at(a).data_offsets;
            let q = tensors.value_at(c).data_offsets;
            assert(t[a as int].1 == tensors@[a as int].1@);
            assert(t[c as int].1 == tensors@[c as int].1@);
            if !(p.1 <= q.0 || q.1 <= p.0) {
                return false;
            }
            c = c + 1;
        }
        a = a + 1;
    }
    true
}

/// Decodes the header of the container `bytes`: fails `TruncatedInput` when
/// the bytes end before the length prefix or the header, `HeaderTooLarge`
/// above the ceiling, `MalformedHeader` or `UnsupportedDtype` on bad JSON, and
/// `InvalidOffsets` when a tensor's range is wrong or overlaps another.
/// Returns the data block's offset and the header.
pub fn parse_header(bytes: &[u8]) -> (r: Result<(usize, Header), SafetensorError>)
    ensures
        match r {
            Ok((off, h)) => decode_spec(bytes@) == Ok::<_, SafetensorError>(
                (off as nat, (meta_model(h.metadata), infos_model(h.tensors))),
            ) && h.wf() && off <= bytes@.len(),
            Err(e) => decode_spec(bytes@) == Err::<(nat, HeaderModel), _>(e),
        },
{
    if bytes.len() < 8 {
        return Err(SafetensorError::TruncatedInput);
    }
    let n: u64 = (bytes[0] as u64) | ((bytes[1] as u64) << 8u64) | ((bytes[2] as u64) << 16u64)
        | ((bytes[3] as u64) << 24u64) | ((bytes[4] as u64) << 32u64) | ((bytes[5] as u64) << 40u64)
        | ((bytes[6] as u64) << 48u64) | ((bytes[7] as u64) << 56u64);
    if n > (bytes.len() - 8) as u64 {
        return Err(SafetensorError::TruncatedInput);
    }
    let n = n as usize;
    if n > MAX_HEADER_LEN {
        return Err(SafetensorError::HeaderTooLarge);
    }
    let text = vstd::slice::slice_subrange(bytes, 8, 8 + n);
    let header = match read_header_text(text) {
        Ok(h) => h,
        Err(e) => return Err(e),
    };
    if !check_offsets(&header.tensors, bytes.len() - (8 + n)) {
        return Err(SafetensorError::InvalidOffsets);
    }
    Ok((8 + n, header))
}

} // verus!
