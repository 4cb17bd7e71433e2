use vstd::prelude::*;

pub mod address;
pub mod ascii;
pub mod criteria;
pub mod date;
pub mod formula_lexer;
pub mod formula_template;
pub mod subtotal;
pub mod text;
pub mod cell_error;
pub mod options;
pub mod error;
pub mod lookup;
pub mod lookup_sheet;
pub mod parallel;
pub mod plan;
pub mod prelude;
pub mod evaluate;
pub mod multi_conditional;
pub mod fixtures;
pub mod engineering;
pub mod date_functions;
pub mod text_functions;
pub mod coerce;
pub mod convert;
pub mod template_rebase;
pub mod info;
pub mod aggregate;
