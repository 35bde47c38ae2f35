//! Pattern-guided reuse of input bytes for taint-directed fuzzing.
//!
//! For every branch condition a fuzzer knows which byte ranges of the input
//! its operands depend on. The lengths of those ranges, after adjacent ranges
//! are merged, are the condition's fingerprint. This library keeps, for every
//! fingerprint, the bytes that conditions of that shape were seen to depend
//! on, and replays them against other conditions of the same shape.
//!
//! - [`segment`]: byte segments, their merging, fingerprints and values.
//! - [`order`]: the lexicographic order on fingerprints.
//! - [`store`]: the pattern store, which holds the observed values.
//! - [`cond`]: a condition and the state machine of its solving.
//! - [`fuzz_type`]: the families of strategies, and how a run ended.
//! - [`stats`]: execution counts, and how a reuse attempt keeps its
//!   executions out of them.
//! - [`usage`]: what reuse tried and achieved, by fingerprint and by
//!   condition.
//! - [`splice`]: writing values into a candidate input.
//! - [`pick`]: random choice among stored values.
//! - [`reuse`]: the reuse engine, one candidate at a time.
//! - [`search`]: the handler that strategies work on, and random search.
//! - [`schedule`]: the driver's choice of what to try on a condition.
//! - [`keyed`], [`arrange`], [`count`]: maps given by lists, ordered lists,
//!   and counts that stop at the largest value.
//!
//! Running the target, the corpus and the locks around shared state are the
//! caller's: the library decides, and hands plain values in and out.

pub mod arrange;
pub mod cond;
pub mod count;
pub mod fuzz_type;
pub mod keyed;
pub mod order;
pub mod pick;
pub mod reuse;
pub mod schedule;
pub mod search;
pub mod segment;
pub mod splice;
pub mod stats;
pub mod store;
pub mod usage;
