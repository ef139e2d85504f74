//! L-system rewriting and a turtle that turns the rewritten symbols into
//! line segments.
//!
//! Geometry is kept exact and symbolic: the turtle records each forward step
//! as "the vertex reached from vertex `from` by one unit step at heading
//! `heading`", where a heading counts turns of the configured angle. A host
//! turns that skeleton into coordinates once it knows the step length and the
//! turn angle.
pub mod drawing;
pub mod lsystem;
pub mod rewrite;
pub mod rules;
pub mod turtle;
