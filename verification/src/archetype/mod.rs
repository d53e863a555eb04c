pub mod raw_alloc;
