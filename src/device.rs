//! The framework and device selectors a reader is opened with.
use vstd::prelude::*;
use crate::bytes::bytes_eq;
use crate::dtype::Dtype;
use crate::error::SafetensorError;

verus! {

/// The tensor framework that receives the tensors read.
#[derive(Clone, Copy, Debug, PartialEq, Eq, Structural)]
pub enum Framework {
    Pytorch,
    Numo,
}

/// Where the tensors read are to be placed.
#[derive(Clone, Copy, Debug, PartialEq, Eq, Structural)]
pub enum Device {
    Cpu,
    Cuda(usize),
    Mps,
    Npu(usize),
    Xpu(usize),
}

pub open spec fn str_cpu() -> Seq<u8> { seq![99u8, 112u8, 117u8] }
pub open spec fn str_mps() -> Seq<u8> { seq![109u8, 112u8, 115u8] }
pub open spec fn str_cuda() -> Seq<u8> { seq![99u8, 117u8, 100u8, 97u8] }
pub open spec fn str_npu() -> Seq<u8> { seq![110u8, 112u8, 117u8] }
pub open spec fn str_xpu() -> Seq<u8> { seq![120u8, 112u8, 117u8] }

/// The decimal value of the digits `s`.
pub open spec fn dec_val(s: Seq<u8>) -> nat
    decreases s.len(),
{
    if s.len() == 0 {
        0
    } else {
        dec_val(s.drop_last()) * 10 + (s.last() - 48) as nat
    }
}

pub open spec fn all_digits(s: Seq<u8>) -> bool {
    forall|i: int| 0 <= i < s.len() ==> 48 <= #[trigger] s[i] <= 57
}

/// The index written after `prefix` and a colon in `s`, if `s` is so written
/// and the index fits in a `usize`.
pub open spec fn index_after(s: Seq<u8>, prefix: Seq<u8>) -> Option<usize> {
    let n = prefix.len() + 1int;
    if s.len() > n && s.subrange(0, n - 1) == prefix && s[n - 1] == 58
        && all_digits(s.subrange(n, s.len() as int)) && dec_val(s.subrange(n, s.len() as int)) <= usize::MAX {
        Some(dec_val(s.subrange(n, s.len() as int)) as usize)
    } else {
        None
    }
}

/// The device named `s`: `cpu`, `mps`, `cuda`, `cuda:<index>`, `npu[:<index>]`
/// or `xpu[:<index>]`, a missing index being 0.
pub open spec fn device_of(s: Seq<u8>) -> Option<Device> {
    if s == str_cpu() {
        Some(Device::Cpu)
    } else if s == str_cuda() {
        Some(Device::Cuda(0))
    } else if s == str_mps() {
        Some(Device::Mps)
    } else if s == str_npu() {
        Some(Device::Npu(0))
    } else if s == str_xpu() {
        Some(Device::Xpu(0))
    } else if index_after(s, str_cuda()) is Some {
        Some(Device::Cuda(index_after(s, str_cuda())->0))
    } else if index_after(s, str_npu()) is Some {
        Some(Device::Npu(index_after(s, str_npu())->0))
    } else if index_after(s, str_xpu()) is Some {
        Some(Device::Xpu(index_after(s, str_xpu())->0))
    } else {
        None
    }
}

/// The framework named `s`: `pt`, `torch` or `pytorch`; `nm` or `numo`.
pub open spec fn framework_of(s: Seq<u8>) -> Option<Framework> {
    if s == seq![112u8, 116u8] || s == seq![116u8, 111u8, 114u8, 99u8, 104u8]
        || s == seq![112u8, 121u8, 116u8, 111u8, 114u8, 99u8, 104u8] {
        Some(Framework::Pytorch)
    } else if s == seq![110u8, 109u8] || s == seq![110u8, 117u8, 109u8, 111u8] {
        Some(Framework::Numo)
    } else {
        None
    }
}

proof fn lemma_dec_val_prefix(s: Seq<u8>, k: int)
    requires
        0 <= k <= s.len(),
    ensures
        dec_val(s.subrange(0, k)) <= dec_val(s),
    decreases s.len() - k,
{
    if k < s.len() {
        lemma_dec_val_prefix(s, k + 1);
        assert(s.subrange(0, k + 1).drop_last() =~= s.subrange(0, k));
    } else {
        assert(s.subrange(0, k) =~= s);
    }
}

/// Reads `s[start..]` as a decimal index: none unless it is one or more digits
/// whose value fits in a `usize`.
fn read_index(s: &[u8], start: usize) -> (r: Option<usize>)
    requires
        start <= s@.len(),
    ensures
        ({
            let t = s@.subrange(start as int, s@.len() as int);
            r == if t.len() > 0 && all_digits(t) && dec_val(t) <= usize::MAX {
                Some(dec_val(t) as usize)
            } else {
                None::<usize>
            }
        }),
{
    let ghost t = s@.subrange(start as int, s@.len() as int);
    if start >= s.len() {
        return None;
    }
    let mut acc: usize = 0;
    let mut j = start;
    assert(t.subrange(0, 0).len() == 0);
    while j < s.len()
        invariant
            start <= j <= s@.len(),
            t == s@.subrange(start as int, s@.len() as int),
            acc as nat == dec_val(t.subrange(0, j - start)),
            all_digits(t.subrange(0, j - start)),
        decreases s@.len() - j,
    {
        let c = s[j];
        assert(t[j - start] == c);
        if c < 48 || c > 57 {
            return None;
        }
        let ghost p = t.subrange(0, j - start + 1);
        assert(p.drop_last() =~= t.subrange(0, j - start));
        let next = match acc.checked_mul(10) {
            Some(m) => m.checked_add((c - 48) as usize),
            None => None,
        };
        match next {
            Some(n) => {
                acc = n;
            },
            None => {
                proof {
                    if all_digits(t) {
                        lemma_dec_val_prefix(t, j - start + 1);
                    }
                }
                return None;
            },
        }
        j = j + 1;
        assert forall|i: int| 0 <= i < j - start implies 48 <= #[trigger] t.subrange(0, j - start)[i] <= 57 by {
            if i < j - start - 1 {
                assert(t.subrange(0, j - start)[i] == t.subrange(0, j - start - 1)[i]);
            }
        }
    }
    assert(t.subrange(0, j - start) =~= t);
    Some(acc)
}

/// Whether `s` is `prefix` followed by a colon, and where the index starts.
fn has_prefix(s: &[u8], prefix: &[u8]) -> (r: bool)
    ensures
        r == (s@.len() > prefix@.len() + 1 && s@.subrange(0, prefix@.len() as int) == prefix@
            && s@[prefix@.len() as int] == 58),
{
    if s.len() <= prefix.len() || s.len() - prefix.len() < 2 {
        return false;
    }
    let head = vstd::slice::slice_subrange(s, 0, prefix.len());
    bytes_eq(head, prefix) && s[prefix.len()] == 58
}

fn index_after_exec(s: &[u8], prefix: &[u8]) -> (r: Option<usize>)
    ensures
        r == index_after(s@, prefix@),
{
    let k = prefix.len();
    if k < s.len() && has_prefix(s, prefix) {
        read_index(s, k + 1)
    } else {
        None
    }
}

/// Resolves a device name; unknown names fail `UnsupportedDevice`.
pub fn parse_device(s: &[u8]) -> (r: Result<Device, SafetensorError>)
    ensures
        r == (match device_of(s@) {
            Some(d) => Ok(d),
            None => Err(SafetensorError::UnsupportedDevice),
        }),
{
    let cpu = vec![99u8, 112u8, 117u8];
    let mps = vec![109u8, 112u8, 115u8];
    let cuda = vec![99u8, 117u8, 100u8, 97u8];
    let npu = vec![110u8, 112u8, 117u8];
    let xpu = vec![120u8, 112u8, 117u8];
    assert(cpu@ =~= str_cpu() && mps@ =~= str_mps() && cuda@ =~= str_cuda());
    assert(npu@ =~= str_npu() && xpu@ =~= str_xpu());
    if bytes_eq(s, cpu.as_slice()) {
        return Ok(Device::Cpu);
    }
    if bytes_eq(s, cuda.as_slice()) {
        return Ok(Device::Cuda(0));
    }
    if bytes_eq(s, mps.as_slice()) {
        return Ok(Device::Mps);
    }
    if bytes_eq(s, npu.as_slice()) {
        return Ok(Device::Npu(0));
    }
    if bytes_eq(s, xpu.as_slice()) {
        return Ok(Device::Xpu(0));
    }
    if let Some(n) = index_after_exec(s, cuda.as_slice()) {
        return Ok(Device::Cuda(n));
    }
    if let Some(n) = index_after_exec(s, npu.as_slice()) {
        return Ok(Device::Npu(n));
    }
    if let Some(n) = index_after_exec(s, xpu.as_slice()) {
        return Ok(Device::Xpu(n));
    }
    Err(SafetensorError::UnsupportedDevice)
}

/// Resolves a framework name; unknown names fail `UnsupportedFramework`.
pub fn parse_framework(s: &[u8]) -> (r: Result<Framework, SafetensorError>)
    ensures
        r == (match framework_of(s@) {
            Some(f) => Ok(f),
            None => Err(SafetensorError::UnsupportedFramework),
        }),
{
    let pt = vec![112u8, 116u8];
    let torch = vec![116u8, 111u8, 114u8, 99u8, 104u8];
    let pytorch = vec![112u8, 121u8, 116u8, 111u8, 114u8, 99u8, 104u8];
    let nm = vec![110u8, 109u8];
    let numo = vec![110u8, 117u8, 109u8, 111u8];
    assert(pt@ =~= seq![112u8, 116u8] && torch@ =~= seq![116u8, 111u8, 114u8, 99u8, 104u8]);
    assert(pytorch@ =~= seq![112u8, 121u8, 116u8, 111u8, 114u8, 99u8, 104u8]);
    assert(nm@ =~= seq![110u8, 109u8] && numo@ =~= seq![110u8, 117u8, 109u8, 111u8]);
    if bytes_eq(s, pt.as_slice()) || bytes_eq(s, torch.as_slice()) || bytes_eq(s, pytorch.as_slice()) {
        Ok(Framework::Pytorch)
    } else if bytes_eq(s, nm.as_slice()) || bytes_eq(s, numo.as_slice()) {
        Ok(Framework::Numo)
    } else {
        Err(SafetensorError::UnsupportedFramework)
    }
}

impl Device {
    pub fn is_cpu(&self) -> (r: bool)
        ensures
            r == (*self == Device::Cpu),
    {
        match self {
            Device::Cpu => true,
            _ => false,
        }
    }

    /// The device's kind and index: `cpu`, `mps`, or `cuda`, `npu`, `xpu`
    /// with the index, to be written `kind:index`.
    pub fn kind(&self) -> (r: (Vec<u8>, Option<usize>))
        ensures
            match *self {
                Device::Cpu => r.0@ == str_cpu() && r.1 is None,
                Device::Mps => r.0@ == str_mps() && r.1 is None,
                Device::Cuda(n) => r.0@ == str_cuda() && r.1 == Some(n),
                Device::Npu(n) => r.0@ == str_npu() && r.1 == Some(n),
                Device::Xpu(n) => r.0@ == str_xpu() && r.1 == Some(n),
            },
    {
        let r = match self {
            Device::Cpu => (vec![99u8, 112u8, 117u8], None),
            Device::Mps => (vec![109u8, 112u8, 115u8], None),
            Device::Cuda(n) => (vec![99u8, 117u8, 100u8, 97u8], Some(*n)),
            Device::Npu(n) => (vec![110u8, 112u8, 117u8], Some(*n)),
            Device::Xpu(n) => (vec![120u8, 112u8, 117u8], Some(*n)),
        };
        assert(r.0@ =~= match *self {
            Device::Cpu => str_cpu(),
            Device::Mps => str_mps(),
            Device::Cuda(_) => str_cuda(),
            Device::Npu(_) => str_npu(),
            Device::Xpu(_) => str_xpu(),
        });
        r
    }
}

/// The name under which the framework knows the element type, if it has one:
/// PyTorch knows every type, under the type's own name except `float8_e4m3fn`;
/// Numo knows the integer types and the 32- and 64-bit floats.
pub open spec fn symbol_of(f: Framework, d: Dtype) -> Option<Seq<u8>> {
    match f {
        Framework::Pytorch => Some(
            if d == Dtype::F8E4M3 {
                d.spec_name() + seq![102u8, 110u8]
            } else {
                d.spec_name()
            },
        ),
        Framework::Numo => match d {
            Dtype::F64 => Some(seq![68u8, 70u8, 108u8, 111u8, 97u8, 116u8]),
            Dtype::F32 => Some(seq![83u8, 70u8, 108u8, 111u8, 97u8, 116u8]),
            Dtype::U64 => Some(seq![85u8, 73u8, 110u8, 116u8, 54u8, 52u8]),
            Dtype::I64 => Some(seq![73u8, 110u8, 116u8, 54u8, 52u8]),
            Dtype::U32 => Some(seq![85u8, 73u8, 110u8, 116u8, 51u8, 50u8]),
            Dtype::I32 => Some(seq![73u8, 110u8, 116u8, 51u8, 50u8]),
            Dtype::U16 => Some(seq![85u8, 73u8, 110u8, 116u8, 49u8, 54u8]),
            Dtype::I16 => Some(seq![73u8, 110u8, 116u8, 49u8, 54u8]),
            Dtype::U8 => Some(seq![85u8, 73u8, 110u8, 116u8, 56u8]),
            Dtype::I8 => Some(seq![73u8, 110u8, 116u8, 56u8]),
            _ => None,
        },
    }
}

impl Framework {
    /// The name under which the framework knows `d`; fails `UnsupportedDtype`
    /// when it has none.
    pub fn dtype_symbol(&self, d: Dtype) -> (r: Result<Vec<u8>, SafetensorError>)
        ensures
            r matches Ok(v) ==> symbol_of(*self, d) == Some(v@),
            r matches Err(e) ==> e == SafetensorError::UnsupportedDtype && symbol_of(*self, d) is None,
            r is Ok <==> symbol_of(*self, d) is Some,
    {
        match self {
            Framework::Pytorch => {
                let mut n = d.name();
                if d == Dtype::F8E4M3 {
                    n.push(102u8);
                    n.push(110u8);
                    assert(n@ =~= d.spec_name() + seq![102u8, 110u8]);
                }
                Ok(n)
            },
            Framework::Numo => {
                let r = match d {
                    Dtype::F64 => vec![68u8, 70u8, 108u8, 111u8, 97u8, 116u8],
                    Dtype::F32 => vec![83u8, 70u8, 108u8, 111u8, 97u8, 116u8],
                    Dtype::U64 => vec![85u8, 73u8, 110u8, 116u8, 54u8, 52u8],
                    Dtype::I64 => vec![73u8, 110u8, 116u8, 54u8, 52u8],
                    Dtype::U32 => vec![85u8, 73u8, 110u8, 116u8, 51u8, 50u8],
                    Dtype::I32 => vec![73u8, 110u8, 116u8, 51u8, 50u8],
                    Dtype::U16 => vec![85u8, 73u8, 110u8, 116u8, 49u8, 54u8],
                    Dtype::I16 => vec![73u8, 110u8, 116u8, 49u8, 54u8],
                    Dtype::U8 => vec![85u8, 73u8, 110u8, 116u8, 56u8],
                    Dtype::I8 => vec![73u8, 110u8, 116u8, 56u8],
                    _ => return Err(SafetensorError::UnsupportedDtype),
                };
                assert(Some(r@) =~= symbol_of(*self, d));
                Ok(r)
            },
        }
    }

    pub fn is_pytorch(&self) -> (r: bool)
        ensures
            r == (*self == Framework::Pytorch),
    {
        match self {
            Framework::Pytorch => true,
            Framework::Numo => false,
        }
    }
}

} // verus!
