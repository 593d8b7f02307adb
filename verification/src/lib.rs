//! Mid-level IR, analyses and code emitters of the Sarif compiler backend.
pub mod mir;
pub mod text;

pub mod pretty;
pub mod analysis;
pub mod escape;
pub mod runtime;
pub mod native;
pub mod kinds;
pub mod infer;
pub mod c;
pub mod c_emit;
pub mod lower_type;
pub mod values;
pub mod trusted;
pub mod text_data;
pub mod clif;
pub mod lowering;
pub mod text_index;
pub mod byte_access;
pub mod text_builder;
pub mod list_sort;
pub mod runtime_list;
pub mod interp;
pub mod object;
pub mod bindings;
pub mod pretty_laws;
