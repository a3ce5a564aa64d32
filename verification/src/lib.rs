//! An entity-component-system data store with a concurrent system scheduler
//! at its core: entities are opaque identifiers, components are plain data
//! attached to entities, and systems are periodic units of logic that read
//! and write a declared subset of component types for all entities that
//! possess them. The store is type-erased over a closed registry: the host
//! supplies one union of component types, and a numeric token names each
//! concrete type, so no cast is ever trusted. Alongside the store live the
//! archetype cache with its canonical, order-independent type-set identity,
//! the event listeners that decide each cycle whether a system fires, and
//! the lexer and parser of the small scripting language that feeds the
//! engine. The host owns the threads; every decision they act on is made
//! here.

pub mod anchor;
pub mod archetype;
pub mod component;
pub mod entity;
pub mod error;
pub mod event;
pub mod lexer;
pub mod p1;
pub mod parser;
pub mod query;
pub mod shader;
pub mod statement;
pub mod tick;
pub mod token;
pub mod won_token;
pub mod utility;
