//! Indexing of C and C++ sources: spelling rules, syntax walks, call
//! resolution and the merging of lowered units, with machine-checked contracts.

pub mod aliases;
pub mod arguments;
pub mod arrows;
pub mod call_laws;
pub mod calls;
pub mod candidates;
pub mod class_laws;
pub mod classes;
pub mod closing_laws;
pub mod closure;
pub mod collect;
pub mod configurations;
pub mod conversions;
pub mod declaration_laws;
pub mod declarations;
pub mod declarator;
pub mod dispatch;
pub mod emit;
pub mod expr;
pub mod expression_laws;
pub mod externs;
pub mod facts;
pub mod fields;
pub mod finalize;
pub mod flows;
pub mod functions;
pub mod hierarchy;
pub mod idmap;
pub mod infer;
pub mod initializers;
pub mod ir;
pub mod lambda;
pub mod layouts;
pub mod linking_laws;
pub mod literal;
pub mod locals;
pub mod lookup;
pub mod lookup_laws;
pub mod members;
pub mod merge;
pub mod merge_calls;
pub mod merge_flow;
pub mod merge_fns;
pub mod merge_laws;
pub mod merge_vars;
pub mod merged_calls;
pub mod merged_code;
pub mod merged_fns;
pub mod merging;
pub mod methods;
pub mod name_laws;
pub mod naming;
pub mod node_laws;
pub mod normalize;
pub mod overload;
pub mod parse;
pub mod pending;
pub mod plan;
pub mod program;
pub mod ranking;
pub mod receivers;
pub mod records;
pub mod registration;
pub mod remap;
pub mod repeated_calls;
pub mod repeated_vars;
pub mod repeats;
pub mod reports;
pub mod results;
pub mod route_laws;
pub mod routes;
pub mod scope;
pub mod selection;
pub mod shape_laws;
pub mod signature;
pub mod spelling;
pub mod spelling_laws;
pub mod store_laws;
pub mod stores;
pub mod substitution;
pub mod syntax;
pub mod target;
pub mod template_laws;
pub mod templates;
pub mod temporaries;
pub mod text;
pub mod tree_laws;
pub mod types;
pub mod typing_laws;
pub mod unit;
pub mod unit_laws;
pub mod upkeep;
pub mod variables;
pub mod walk;
pub mod walk_laws;
pub mod weak;
pub mod window;
