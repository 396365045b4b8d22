//! Checks syndication feeds (RSS and Atom) for changes: parses feed documents into
//! plain values, summarises each one as an observation, and classifies how an
//! observation differs from the one recorded before.

/// Shared model: feed kinds, observations, subscriptions, errors.
pub mod common;
/// String helpers.
pub mod text;
/// Sequence lemmas.
pub mod seqs;
/// The markup reader, over quick-xml.
pub mod xml;
/// The RSS parser.
pub mod rss;
/// What the RSS parser makes of a well-formed channel.
pub mod rss_laws;
/// The Atom parser.
pub mod atom;
/// What the Atom parser makes of a root without update date.
pub mod atom_laws;
/// Observations of parsed documents.
pub mod syndication;
/// Classification, aggregation of a run's results, and its report.
pub mod pipeline;
/// Subscription lists and listings.
pub mod import;
