//! Verified core of a spectral Monte Carlo path tracer.
//!
//! A render follows light paths from the pixels of a screen through a scene,
//! one spectral bin at a time, and tallies where paths collect light. This
//! crate holds what is decided along the way, and proves it: how far a path
//! goes and what it collects, which primitive is hit first, how the tallies of
//! a sample pass are deposited in an image, how partial images merge, and how
//! workers start and stop.
//!
//! The geometry itself is numerical work on real numbers. It is handed in by
//! the caller: as a function that says what a ray meets, as keys that order
//! hits by distance, and as a function that turns tallies into colours.
pub mod image;
pub mod path;
pub mod scene;
pub mod screen;
pub mod spectrum;
pub mod tga;
pub mod tracer;

pub use self::image::Image;
pub use self::image::Size;
pub use self::path::Fate;
pub use self::path::SingleFate;
pub use self::screen::Screen;
pub use self::spectrum::Frequency;
pub use self::tga::TgaHeader;
pub use self::tracer::Tracer;
