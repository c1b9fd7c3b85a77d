use vstd::prelude::*;

pub mod text;
pub mod style;
pub mod job_detail;
pub mod models;
pub mod timing;
pub mod gantt;
pub mod matrix_view;
pub mod progress;
pub mod microsandbox;

verus! {
} // verus!
