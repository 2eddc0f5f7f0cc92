pub mod from_external_source;
pub mod from_iterable;
