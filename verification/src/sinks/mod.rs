pub mod for_each;
