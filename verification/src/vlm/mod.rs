//! Vision: image preprocessing and the cache of image features.
pub mod exact;
pub mod feature_cache;
pub mod image;
pub mod raster;
pub mod resize;
pub mod sampling;
