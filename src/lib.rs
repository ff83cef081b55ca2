//! Task hierarchy and project lifecycle management for a research organiser.
//!
//! The library keeps projects, tasks and notes in a store ([`store::DbService`])
//! whose well-formedness every operation is proved to preserve: ids are unique,
//! project paths are unique, every parent reference resolves to a task of the
//! same project, and the parent references form a forest. On top of it:
//!
//! - [`task_service`]: the task tree manager (create, list, partial update,
//!   cascading delete, move with cycle check, reorder), with
//!   [`hierarchy`] building a task's full subtree;
//! - [`project_service`]: the project lifecycle (creation decided around the
//!   provisioning work done by the caller, partial update, archival);
//! - [`note_service`]: plain note records;
//! - [`merge`]: the partial-update merger and the value checks;
//! - [`rows`]: the stored form of rows, with tags as JSON text.
//!
//! [`tree`] and [`forest`] hold the model of the parent relation and the
//! lemmas about it.
pub mod error;
pub mod models;
pub mod tree;
pub mod forest;
pub mod store;
pub mod queries;
pub mod merge;
pub mod provider;
pub mod task_service;
pub mod hierarchy;
pub mod project_service;
pub mod note_service;
pub mod rows;
