//! Named-column label sets: tables of unique integer rows under a fixed
//! schema of identifier-like column names, with a hash index from each row
//! to its position.

pub mod value;
pub mod names;
pub mod row_index;
pub mod model;
pub mod labels;

pub use value::LabelValue;
pub use names::{is_valid_label_name, is_valid_schema};
pub use labels::{Iter, Labels, LabelsBuilder, LabelsError};
pub use model::LabelsModel;

