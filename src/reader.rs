//! A read handle over a whole container held in memory (typically a mapped
//! file): the header is decoded and validated once, and each tensor is served
//! as a byte range of the container.
use vstd::prelude::*;
use crate::bytes::lex_lt;
use crate::device::{Device, Framework};
use crate::dtype::Dtype;
use crate::error::SafetensorError;
use crate::header::{infos_model, meta_model, Header, TensorInfo};
use crate::name_map::{lemma_map_vals, lookup, names_of, NameMap};
use crate::parse::HeaderModel;
use crate::validate::{decode_spec, offsets_valid, parse_header};

verus! {

/// Where a tensor lies in the container: its dtype, shape, and the absolute
/// byte range `[start, end)`.
pub struct TensorSlice {
    pub dtype: Dtype,
    pub shape: Vec<usize>,
    pub start: usize,
    pub end: usize,
}

/// Whether the device may be used with the framework: only PyTorch runs off the CPU.
pub open spec fn device_allowed(framework: Framework, device: Device) -> bool {
    device == Device::Cpu || framework == Framework::Pytorch
}

/// An open container: its validated header, the data block's offset, and the
/// container's length.
pub struct Open {
    header: Header,
    offset: usize,
    len: usize,
    framework: Framework,
    device: Device,
}

impl Open {
    /// The header's model.
    pub closed spec fn spec_header(&self) -> HeaderModel {
        (meta_model(self.header.metadata), infos_model(self.header.tensors))
    }

    /// The offset of the data block.
    pub closed spec fn spec_offset(&self) -> nat {
        self.offset as nat
    }

    /// The container's length.
    pub closed spec fn spec_len(&self) -> nat {
        self.len as nat
    }

    pub closed spec fn spec_framework(&self) -> Framework {
        self.framework
    }

    pub closed spec fn spec_device(&self) -> Device {
        self.device
    }

    #[verifier::type_invariant]
    spec fn inv(&self) -> bool {
        &&& self.header.wf()
        &&& self.offset <= self.len
        &&& offsets_valid(infos_model(self.header.tensors), (self.len - self.offset) as nat)
    }

    /// Opens the container `bytes` for the given framework and device (the
    /// CPU when none is given). Fails `UnsupportedDevice` when the device is
    /// not the CPU and the framework is not PyTorch; else fails as decoding
    /// the header fails.
    pub fn new(bytes: &[u8], framework: Framework, device: Option<Device>) -> (r: Result<Self, SafetensorError>)
        ensures
            ({
                let d = match device { Some(d) => d, None => Device::Cpu };
                if !device_allowed(framework, d) {
                    r == Err::<Self, _>(SafetensorError::UnsupportedDevice)
                } else {
                    match decode_spec(bytes@) {
                        Err(e) => r == Err::<Self, _>(e),
                        Ok((off, h)) => r matches Ok(o) && o.spec_header() == h && o.spec_offset() == off
                            && o.spec_len() == bytes@.len() && o.spec_framework() == framework
                            && o.spec_device() == d,
                    }
                }
            }),
    {
        let device = match device {
            Some(d) => d,
            None => Device::Cpu,
        };
        if !(device.is_cpu() || framework.is_pytorch()) {
            return Err(SafetensorError::UnsupportedDevice);
        }
        match parse_header(bytes) {
            Ok((offset, header)) => Ok(Open { header, offset, len: bytes.len(), framework, device }),
            Err(e) => Err(e),
        }
    }

    /// The free-form metadata, if the header has any.
    pub fn metadata(&self) -> (r: &Option<NameMap<Vec<u8>>>)
        ensures
            meta_model(*r) == self.spec_header().0,
    {
        &self.header.metadata
    }

    /// The tensor names, in ascending byte order.
    pub fn keys(&self) -> (r: Vec<Vec<u8>>)
        ensures
            r@.map_values(|n: Vec<u8>| n@) == names_of(self.spec_header().1),
            forall|i: int, j: int| 0 <= i < j < r@.len() ==> lex_lt(#[trigger] r@[i]@, #[trigger] r@[j]@),
    {
        proof {
            use_type_invariant(self);
            lemma_map_vals(self.header.tensors@, crate::header::info_of());
        }
        let r = self.header.tensors.names();
        assert forall|i: int, j: int| 0 <= i < j < r@.len() implies lex_lt(#[trigger] r@[i]@, #[trigger] r@[j]@) by {
            let t = self.header.tensors@;
            assert(r@.map_values(|n: Vec<u8>| n@).len() == r@.len());
            assert(names_of(t).len() == t.len());
            assert(r@[i]@ == r@.map_values(|n: Vec<u8>| n@)[i]);
            assert(r@[j]@ == r@.map_values(|n: Vec<u8>| n@)[j]);
            assert(names_of(t)[i] == t[i].0);
            assert(names_of(t)[j] == t[j].0);
        }
        r
    }

    /// Where the tensor `name` lies: fails `NotFound` when the header has no
    /// such tensor, else gives its dtype, shape and absolute byte range
    /// `[offset + begin, offset + end)`, which lies within the container.
    pub fn get_tensor(&self, name: &[u8]) -> (r: Result<TensorSlice, SafetensorError>)
        ensures
            match lookup(self.spec_header().1, name@) {
                None => r == Err::<TensorSlice, _>(SafetensorError::NotFound),
                Some(info) => r matches Ok(t) && t.dtype == info.dtype && t.shape@ == info.shape
                    && t.start == self.spec_offset() + info.begin && t.end == self.spec_offset() + info.end
                    && t.start <= t.end <= self.spec_len(),
            },
    {
        proof {
            use_type_invariant(self);
        }
        let tensors = &self.header.tensors;
        proof {
            crate::name_map::lemma_lookup_map_vals(tensors@, name@, crate::header::info_of());
        }
        match tensors.find(name) {
            None => Err(SafetensorError::NotFound),
            Some(i) => {
                let info: &TensorInfo = tensors.value_at(i);
                assert(infos_model(*tensors)[i as int].1 == info@);
                let shape = vstd::slice::slice_to_vec(info.shape.as_slice());
                Ok(TensorSlice {
                    dtype: info.dtype,
                    shape,
                    start: self.offset + info.data_offsets.0,
                    end: self.offset + info.data_offsets.1,
                })
            },
        }
    }

    pub fn framework(&self) -> (r: Framework)
        ensures
            r == self.spec_framework(),
    {
        self.framework
    }

    pub fn device(&self) -> (r: Device)
        ensures
            r == self.spec_device(),
    {
        self.device
    }
}

/// A handle that is open until it is closed; every read of a closed handle
/// fails `ClosedHandle`.
pub struct SafeOpen {
    inner: Option<Open>,
}

impl SafeOpen {
    /// The open container, or none once closed.
    pub closed spec fn spec_inner(&self) -> Option<Open> {
        self.inner
    }

    /// Opens the container `bytes`; fails as `Open::new` fails.
    pub fn new(bytes: &[u8], framework: Framework, device: Option<Device>) -> (r: Result<Self, SafetensorError>)
        ensures
            ({
                let d = match device { Some(d) => d, None => Device::Cpu };
                if !device_allowed(framework, d) {
                    r == Err::<Self, _>(SafetensorError::UnsupportedDevice)
                } else {
                    match decode_spec(bytes@) {
                        Err(e) => r == Err::<Self, _>(e),
                        Ok((off, h)) => r matches Ok(s) && s.spec_inner() matches Some(o)
                            && o.spec_header() == h && o.spec_offset() == off && o.spec_len() == bytes@.len(),
                    }
                }
            }),
    {
        match Open::new(bytes, framework, device) {
            Ok(o) => Ok(SafeOpen { inner: Some(o) }),
            Err(e) => Err(e),
        }
    }

    fn inner(&self) -> (r: Result<&Open, SafetensorError>)
        ensures
            match self.spec_inner() {
                None => r == Err::<&Open, _>(SafetensorError::ClosedHandle),
                Some(o) => r == Ok::<&Open, SafetensorError>(&o),
            },
    {
        match &self.inner {
            Some(o) => Ok(o),
            None => Err(SafetensorError::ClosedHandle),
        }
    }

    /// Closes the handle; it stays closed.
    pub fn close(&mut self)
        ensures
            final(self).spec_inner() is None,
    {
        self.inner = None;
    }

    /// Whether the handle is still open.
    pub fn is_open(&self) -> (r: bool)
        ensures
            r == self.spec_inner() is Some,
    {
        self.inner.is_some()
    }

    /// The free-form metadata; fails `ClosedHandle` once closed.
    pub fn metadata(&self) -> (r: Result<&Option<NameMap<Vec<u8>>>, SafetensorError>)
        ensures
            match self.spec_inner() {
                None => r == Err::<&Option<NameMap<Vec<u8>>>, _>(SafetensorError::ClosedHandle),
                Some(o) => r matches Ok(m) && meta_model(*m) == o.spec_header().0,
            },
    {
        match self.inner() {
            Ok(o) => Ok(o.metadata()),
            Err(e) => Err(e),
        }
    }

    /// The tensor names in ascending byte order; fails `ClosedHandle` once closed.
    pub fn keys(&self) -> (r: Result<Vec<Vec<u8>>, SafetensorError>)
        ensures
            match self.spec_inner() {
                None => r == Err::<Vec<Vec<u8>>, _>(SafetensorError::ClosedHandle),
                Some(o) => r matches Ok(k) && k@.map_values(|n: Vec<u8>| n@) == names_of(o.spec_header().1)
                    && forall|i: int, j: int| 0 <= i < j < k@.len() ==> lex_lt(#[trigger] k@[i]@, #[trigger] k@[j]@),
            },
    {
        match self.inner() {
            Ok(o) => Ok(o.keys()),
            Err(e) => Err(e),
        }
    }

    /// Where the tensor `name` lies; fails `ClosedHandle` once closed, else as
    /// `Open::get_tensor` fails.
    pub fn get_tensor(&self, name: &[u8]) -> (r: Result<TensorSlice, SafetensorError>)
        ensures
            match self.spec_inner() {
                None => r == Err::<TensorSlice, _>(SafetensorError::ClosedHandle),
                Some(o) => match lookup(o.spec_header().1, name@) {
                    None => r == Err::<TensorSlice, _>(SafetensorError::NotFound),
                    Some(info) => r matches Ok(t) && t.dtype == info.dtype && t.shape@ == info.shape
                        && t.start == o.spec_offset() + info.begin && t.end == o.spec_offset() + info.end
                        && t.start <= t.end <= o.spec_len(),
                },
            },
    {
        match self.inner() {
            Ok(o) => o.get_tensor(name),
            Err(e) => Err(e),
        }
    }
}

} // verus!
