//! Reading the message tables that a native module carries as resources.
//!
//! A message table maps numeric ids to texts. A module may hold several,
//! each a resource with an identifier of its own. The library decodes a
//! table from its bytes ([`message_table`]), reads and writes resource
//! identifiers in the form in which the system hands them over ([`sys`]),
//! and directs the calls that collect all entries of a module ([`driver`]).
//! It calls the system nowhere itself: its caller does, and hands it what
//! the system gave.

pub mod driver;
pub mod error;
pub mod message_table;
pub mod str_util;
pub mod sys;
pub mod table_laws;
