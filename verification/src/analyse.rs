//! What the analyser rules of the query layer decide, over what they read of
//! a logical plan.

pub mod transform_count_gen_time_col;
pub mod transform_update;
