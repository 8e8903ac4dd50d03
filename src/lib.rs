//! An erasure-coded matrix store whose rows are bound to polynomial
//! commitments that can be updated cell by cell.

pub mod params;
pub mod scalar;
pub mod poly;
pub mod grid;
pub mod traits;
pub mod byte_data;
pub mod field_matrix;
pub mod encoder;
pub mod field_encoder;
pub mod kzg10;
pub mod matrix_commit;
pub mod kzg;
pub mod dynamic_data;

pub use params::{DataError, Params};

