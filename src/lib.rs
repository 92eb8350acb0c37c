pub mod decimal;
pub mod record;
pub mod date;
pub mod rate;
pub mod batch;
pub mod driver;
pub mod tenant;
