//! The element types a tensor may have, their names and byte widths.
use vstd::prelude::*;
use crate::bytes::bytes_eq;
use crate::error::SafetensorError;

verus! {

/// The element type of a tensor.
#[derive(Clone, Copy, Debug, PartialEq, Eq, Structural)]
pub enum Dtype {
    Bool,
    I8,
    U8,
    I16,
    U16,
    I32,
    U32,
    I64,
    U64,
    F16,
    F32,
    F64,
    BF16,
    F8E4M3,
    F8E5M2,
}

impl Dtype {
    /// Byte width of one element.
    pub open spec fn spec_width(self) -> nat {
        match self {
            Dtype::Bool | Dtype::I8 | Dtype::U8 | Dtype::F8E4M3 | Dtype::F8E5M2 => 1,
            Dtype::I16 | Dtype::U16 | Dtype::F16 | Dtype::BF16 => 2,
            Dtype::I32 | Dtype::U32 | Dtype::F32 => 4,
            Dtype::I64 | Dtype::U64 | Dtype::F64 => 8,
        }
    }

    /// The name under which the type is written in a header.
    pub open spec fn spec_name(self) -> Seq<u8> {
        match self {
            Dtype::Bool => seq![98u8, 111u8, 111u8, 108u8],
            Dtype::I8 => seq![105u8, 110u8, 116u8, 56u8],
            Dtype::U8 => seq![117u8, 105u8, 110u8, 116u8, 56u8],
            Dtype::I16 => seq![105u8, 110u8, 116u8, 49u8, 54u8],
            Dtype::U16 => seq![117u8, 105u8, 110u8, 116u8, 49u8, 54u8],
            Dtype::I32 => seq![105u8, 110u8, 116u8, 51u8, 50u8],
            Dtype::U32 => seq![117u8, 105u8, 110u8, 116u8, 51u8, 50u8],
            Dtype::I64 => seq![105u8, 110u8, 116u8, 54u8, 52u8],
            Dtype::U64 => seq![117u8, 105u8, 110u8, 116u8, 54u8, 52u8],
            Dtype::F16 => seq![102u8, 108u8, 111u8, 97u8, 116u8, 49u8, 54u8],
            Dtype::F32 => seq![102u8, 108u8, 111u8, 97u8, 116u8, 51u8, 50u8],
            Dtype::F64 => seq![102u8, 108u8, 111u8, 97u8, 116u8, 54u8, 52u8],
            Dtype::BF16 => seq![98u8, 102u8, 108u8, 111u8, 97u8, 116u8, 49u8, 54u8],
            Dtype::F8E4M3 => seq![102u8, 108u8, 111u8, 97u8, 116u8, 56u8, 95u8, 101u8, 52u8, 109u8, 51u8],
            Dtype::F8E5M2 => seq![102u8, 108u8, 111u8, 97u8, 116u8, 56u8, 95u8, 101u8, 53u8, 109u8, 50u8],
        }
    }

    /// Byte width of one element.
    pub fn width(&self) -> (r: usize)
        ensures
            r as nat == self.spec_width(),
            1 <= r <= 8,
    {
        match self {
            Dtype::Bool | Dtype::I8 | Dtype::U8 | Dtype::F8E4M3 | Dtype::F8E5M2 => 1,
            Dtype::I16 | Dtype::U16 | Dtype::F16 | Dtype::BF16 => 2,
            Dtype::I32 | Dtype::U32 | Dtype::F32 => 4,
            Dtype::I64 | Dtype::U64 | Dtype::F64 => 8,
        }
    }

    /// The name under which the type is written in a header.
    pub fn name(&self) -> (r: Vec<u8>)
        ensures
            r@ == self.spec_name(),
    {
        let r = match self {
            Dtype::Bool => vec![98u8, 111u8, 111u8, 108u8],
            Dtype::I8 => vec![105u8, 110u8, 116u8, 56u8],
            Dtype::U8 => vec![117u8, 105u8, 110u8, 116u8, 56u8],
            Dtype::I16 => vec![105u8, 110u8, 116u8, 49u8, 54u8],
            Dtype::U16 => vec![117u8, 105u8, 110u8, 116u8, 49u8, 54u8],
            Dtype::I32 => vec![105u8, 110u8, 116u8, 51u8, 50u8],
            Dtype::U32 => vec![117u8, 105u8, 110u8, 116u8, 51u8, 50u8],
            Dtype::I64 => vec![105u8, 110u8, 116u8, 54u8, 52u8],
            Dtype::U64 => vec![117u8, 105u8, 110u8, 116u8, 54u8, 52u8],
            Dtype::F16 => vec![102u8, 108u8, 111u8, 97u8, 116u8, 49u8, 54u8],
            Dtype::F32 => vec![102u8, 108u8, 111u8, 97u8, 116u8, 51u8, 50u8],
            Dtype::F64 => vec![102u8, 108u8, 111u8, 97u8, 116u8, 54u8, 52u8],
            Dtype::BF16 => vec![98u8, 102u8, 108u8, 111u8, 97u8, 116u8, 49u8, 54u8],
            Dtype::F8E4M3 => vec![102u8, 108u8, 111u8, 97u8, 116u8, 56u8, 95u8, 101u8, 52u8, 109u8, 51u8],
            Dtype::F8E5M2 => vec![102u8, 108u8, 111u8, 97u8, 116u8, 56u8, 95u8, 101u8, 53u8, 109u8, 50u8],
        };
        assert(r@ =~= self.spec_name());
        r
    }
}

/// All element types, in a fixed order.
pub open spec fn all_dtypes() -> Seq<Dtype> {
    seq![
        Dtype::Bool, Dtype::I8, Dtype::U8, Dtype::I16, Dtype::U16, Dtype::I32, Dtype::U32,
        Dtype::I64, Dtype::U64, Dtype::F16, Dtype::F32, Dtype::F64, Dtype::BF16,
        Dtype::F8E4M3, Dtype::F8E5M2,
    ]
}

/// The element type written under `s`, if any.
pub open spec fn dtype_of_name(s: Seq<u8>) -> Option<Dtype> {
    if exists|d: Dtype| d.spec_name() == s {
        Some(choose|d: Dtype| d.spec_name() == s)
    } else {
        None
    }
}

/// Distinct element types have distinct names.
pub proof fn lemma_name_injective(a: Dtype, b: Dtype)
    ensures
        a.spec_name() == b.spec_name() ==> a == b,
{
    if a.spec_name() == b.spec_name() && a != b {
        let (x, y) = (a.spec_name(), b.spec_name());
        assert(x.len() == y.len());
        assert(x[x.len() - 1] == y[y.len() - 1]);
        assert(x[0] == y[0]);
        assert(x[1] == y[1]);
        assert(x[x.len() - 2] == y[y.len() - 2]);
    }
}

/// Reading a name back gives the type it was written for.
pub proof fn lemma_dtype_of_own_name(d: Dtype)
    ensures
        dtype_of_name(d.spec_name()) == Some(d),
{
    let c = choose|e: Dtype| e.spec_name() == d.spec_name();
    lemma_name_injective(c, d);
}

/// Resolves an element type from its name; unknown names fail `UnsupportedDtype`.
pub fn parse_dtype(s: &[u8]) -> (r: Result<Dtype, SafetensorError>)
    ensures
        r == (match dtype_of_name(s@) {
            Some(d) => Ok(d),
            None => Err(SafetensorError::UnsupportedDtype),
        }),
{
    let mut i: usize = 0;
    let candidates = [
        Dtype::Bool, Dtype::I8, Dtype::U8, Dtype::I16, Dtype::U16, Dtype::I32, Dtype::U32,
        Dtype::I64, Dtype::U64, Dtype::F16, Dtype::F32, Dtype::F64, Dtype::BF16,
        Dtype::F8E4M3, Dtype::F8E5M2,
    ];
    assert(candidates@ =~= all_dtypes());
    while i < 15
        invariant
            i <= 15,
            candidates@ == all_dtypes(),
            forall|j: int| 0 <= j < i ==> all_dtypes()[j].spec_name() != s@,
        decreases 15 - i,
    {
        let d = candidates[i];
        let n = d.name();
        if bytes_eq(n.as_slice(), s) {
            proof {
                lemma_dtype_of_own_name(d);
            }
            return Ok(d);
        }
        i = i + 1;
    }
    proof {
        assert forall|d: Dtype| d.spec_name() != s@ by {
            let j: int = match d {
                Dtype::Bool => 0,
                Dtype::I8 => 1,
                Dtype::U8 => 2,
                Dtype::I16 => 3,
                Dtype::U16 => 4,
                Dtype::I32 => 5,
                Dtype::U32 => 6,
                Dtype::I64 => 7,
                Dtype::U64 => 8,
                Dtype::F16 => 9,
                Dtype::F32 => 10,
                Dtype::F64 => 11,
                Dtype::BF16 => 12,
                Dtype::F8E4M3 => 13,
                Dtype::F8E5M2 => 14,
            };
            assert(all_dtypes()[j] == d);
        }
    }
    Err(SafetensorError::UnsupportedDtype)
}

} // verus!
