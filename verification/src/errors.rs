use vstd::prelude::*;

verus! {

/// Failure outcomes of the encoder.
///
/// Every malformed input a caller can hand the library is reported through
/// one of these variants instead of a panic, so a host process embedding the
/// encoder is never aborted on input it could have validated itself.
#[derive(Clone, Copy, Debug, PartialEq, Eq, Structural)]
pub enum WtxError {
    /// The raster has zero width or zero height.
    EmptyRaster,
    /// A raster dimension does not fit in the container's 16-bit fields.
    OversizedRaster,
    /// The pixel buffer length is not width * height * 4.
    RasterSizeMismatch,
    /// The base-level payload would overflow the container's 32-bit
    /// total-length field.
    OversizedPayload,
    /// Reserved for failures of the external block-compression routine.
    /// The routine in use encodes every well-formed raster (partial edge
    /// tiles are padded), so the encoder never raises it today; it stays in
    /// the taxonomy for callers that match on it.
    CompressionFailed,
    /// A codec selection string named neither of the two supported codecs.
    UnknownFormat,
}

} // verus!
