pub mod colormap;
pub mod hdu_selection;
pub mod scaling;
