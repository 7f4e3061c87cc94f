//! Static finite-state machines declared as data.
//!
//! A machine is declared by a compact text: its name, its initial state,
//! its states and the transitions between them. The declaration is parsed
//! and validated into a graph, each state gets a flat variant identifier,
//! and a dispatcher runs the graph against user-supplied state hooks with a
//! fixed run-to-completion lifecycle.
//!
//! The parts, from the text to the running machine:
//!
//! - [`lexer`] splits a declaration into tokens, [`source`] reads names,
//!   parameter lists and states from them, and [`parsers`] holds the
//!   grammar of whole declarations.
//! - [`ident`] makes variant identifiers, [`casing`] tells which texts
//!   can be put in Pascal case, and [`outside`] holds the few calls into
//!   other crates that this takes.
//! - [`types`] are the parts of a declaration, and [`machine`] is the graph
//!   that they make once they are validated.
//! - [`contract`], [`non_fallible`] and [`fallible`] are the traits between
//!   a machine, its states and its driver.
//! - [`steps`] and [`try_steps`] run one step of one state and of the
//!   transitions that leave it.
//! - [`lifecycle`] and [`try_lifecycle`] say what a step of a machine does,
//!   as a model, and prove what holds of every run.
//! - [`dispatcher`] and [`try_dispatcher`] run a graph, [`tagged`] is the
//!   tagged union that they show, and [`bindings`] holds the message entry
//!   points that go by the declared bindings.
//!
//! Validation is strict. A transition or a binding that names a state
//! which is not declared is an error, and so are two states with the same
//! variant identifier. A state may be left by several transitions. Their
//! guards are asked in the order in which the transitions were declared,
//! and the first that fires decides where the machine goes.

pub mod bindings;
pub mod casing;
pub mod contract;
pub mod dispatcher;
pub mod error;
pub mod fallible;
pub mod ident;
pub mod lexer;
pub mod lifecycle;
pub mod machine;
pub mod non_fallible;
pub mod outside;
pub mod parsers;
pub mod source;
pub mod steps;
pub mod tagged;
pub mod try_dispatcher;
pub mod try_lifecycle;
pub mod try_steps;
pub mod types;

pub use contract::IsState;
pub use contract::MessageError;
pub use contract::PollMessage;
pub use contract::PushMessage;
pub use contract::ReceiveMessage;
pub use contract::ReturnMessage;
pub use contract::StateMachine;
pub use contract::TransitGuard;
pub use dispatcher::add_state_machine;
pub use dispatcher::Dispatcher;
pub use error::DeclarationError;
pub use machine::Machine;
pub use tagged::is_state;
pub use tagged::match_state_entry;
pub use tagged::Tagged;
pub use try_dispatcher::add_fallible_state_machine;
pub use try_dispatcher::TryDispatcher;
