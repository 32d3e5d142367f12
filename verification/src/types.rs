//! The types at the boundary to decoders and encoders: frames, their formats, and units of
//! coded data.

use bytes::Bytes;
use vstd::prelude::*;

verus! {

/// A pixel format.
pub trait Format: Copy {
    /// The type of one sample.
    type T;

    /// The type that holds the samples of a frame.
    type Data;

    /// The number of channels, as a specification.
    spec fn channels() -> usize;

    /// The number of channels.
    fn num_channels() -> (n: usize)
        ensures
            n == Self::channels(),
    ;
}

/// One plane of samples.
pub struct Plane<T> {
    pub data: Vec<T>,
    pub stride: usize,
}

/// Samples in planes, one plane for each channel.
pub struct Planar<T, const NUM_CHANNELS: usize> {
    pub planes: [Plane<T>; NUM_CHANNELS],
}

/// Three bytes for each pixel: red, green, blue.
#[derive(Copy, Clone, PartialEq, Eq)]
pub struct Rgb24;

impl Format for Rgb24 {
    type T = u8;

    type Data = Plane<u8>;

    open spec fn channels() -> usize {
        3
    }

    fn num_channels() -> (n: usize) {
        3
    }
}

/// One plane of luma and two of chroma at a quarter of its size.
#[derive(Copy, Clone, PartialEq, Eq)]
pub struct Yuv420p;

impl Format for Yuv420p {
    type T = u8;

    type Data = Planar<u8, 3>;

    open spec fn channels() -> usize {
        3
    }

    fn num_channels() -> (n: usize) {
        3
    }
}

/// A frame of samples in the format `F`, in main memory.
pub struct Frame<F: Format> {
    pub data: F::Data,
    pub dims: (usize, usize),
}

pub type Yuv420pFrame = Frame<Yuv420p>;

pub type RgbFrame = Frame<Rgb24>;

impl<F: Format> Frame<F> {
    /// A frame of `dims.0` by `dims.1` pixels.
    pub fn new(data: F::Data, dims: (usize, usize)) -> (r: Self)
        ensures
            r.data == data,
            r.dims == dims,
    {
        Frame { data, dims }
    }

    /// The number of channels of the frame's format.
    #[inline(always)]
    pub fn num_channels() -> (n: usize)
        ensures
            n == F::channels(),
    {
        F::num_channels()
    }
}

/// Something that has a width and a height.
pub trait Dimensions {
    /// The width and the height, as a specification.
    spec fn size(&self) -> (usize, usize);

    /// The width and the height.
    fn dims(&self) -> (r: (usize, usize))
        ensures
            r == self.size(),
    ;
}

impl<F: Format> Dimensions for Frame<F> {
    open spec fn size(&self) -> (usize, usize) {
        self.dims
    }

    fn dims(&self) -> (r: (usize, usize)) {
        self.dims
    }
}

/// The place where frames are held: main memory.
pub struct Local;

/// The H.264 codec, whose units are NAL units.
pub struct H264;

/// One unit of H.264 data: a NAL unit.
pub struct Unit {
    pub data: Bytes,
}

impl Unit {
    pub fn new(data: Bytes) -> (r: Unit)
        ensures
            r.data == data,
    {
        Unit { data }
    }

    pub fn into_data(self) -> (r: Bytes)
        ensures
            r == self.data,
    {
        self.data
    }
}

} // verus!
