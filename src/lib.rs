//! Edge outlines of RGB images: a luminance map of the picture, then for
//! every pixel a grayscale shade that darkens with the luminance difference
//! to three neighbours, swept over the image in four quadrants.

pub mod grid;
pub mod luminance;
pub mod outline;
pub mod quadrant;
pub mod shade;
pub mod timing;
