//! Backend drivers for the migration engine. The library ships the mock
//! driver used to exercise the orchestration; a real database driver
//! implements the same [`crate::update::Driver`] trait next to its
//! connection machinery.

pub mod mock;
