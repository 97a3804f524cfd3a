//! Abstractions of category theory for everyday Rust: functors, applicatives, monads and
//! monoids, the `State` and `Writer` monads, monad transformers and the free monad, and
//! three encodings of the expression problem.
//!
//! Every operation carries a contract, and the laws of each abstraction are proved. A
//! contract speaks of the function that an operation is given through its [`Morphism`]: the
//! arguments it accepts and the results it may return.
//!
//! There is no notation for chains of `bind`: a chain is written as nested closures, each
//! handed to the `bind` before it, and runs from left to right.
pub mod morphism;
pub use crate::morphism::Morphism;

pub mod semigroup;
pub use crate::semigroup::Semigroup;

pub mod monoid;
pub use crate::monoid::Monoid;

pub mod functor;
pub use crate::functor::Functor;

pub mod apply;
pub use crate::apply::Apply;

pub mod applicative;
pub use crate::applicative::Applicative;

pub mod bind;
pub use crate::bind::Bind;

pub mod monad;
pub use crate::monad::Monad;

pub mod semigroupoid;
pub use crate::semigroupoid::Semigroupoid;

pub mod category;
pub use crate::category::Category;

pub mod writer;
pub use crate::writer::Writer;

pub mod state;
pub use crate::state::State;

pub mod trans;
pub use crate::trans::ResultT;
pub use crate::trans::StateT;

pub mod foldable;
pub use crate::foldable::Foldable;

pub mod traversable;
pub use crate::traversable::Traversable;

pub mod free;
pub use crate::free::{lift_f, Free, FunctorOnce, Pending};

pub mod expression;
