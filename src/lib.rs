//! Small verified programs around one substantial piece: a strict JSON parser
//! that reports the character position of any failure.
//!
//! - `json_value`, `json_grammar`, `json_parser`: the value tree, the grammar
//!   as spec functions, and the recursive-descent parser proved against it.
//! - `json_laws`, `json_print`: what holds across inputs, proved.
//! - `assoc`: string-keyed association lists (object members, headers).
//! - `text`: character and string primitives.
//! - `linked_list`, `collections`: a linked list, a stack and a queue.
//! - `http`: request parsing, response building and routing.
//! - `todo`: the TODO tool's command line and task file.
//! - `fizzbuzz`, `describe`: small exercises.
pub mod assoc;
pub mod collections;
pub mod describe;
pub mod fizzbuzz;
pub mod http;
pub mod json_grammar;
pub mod json_laws;
pub mod json_parser;
pub mod json_print;
pub mod json_value;
pub mod linked_list;
pub mod text;
pub mod todo;
