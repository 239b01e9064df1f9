//! Attributes that expansion gives items.

pub mod autodiff_attrs;
