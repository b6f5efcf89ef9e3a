//! The meter drivers shipped with the library.
pub mod axioma;
pub mod diehl;
pub mod generic;
pub mod meter_x;
pub mod standard_oms;
