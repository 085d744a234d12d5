//! The crawl engine of a link doctor: a frontier of discovered URLs, a pool of
//! workers that claim and check them, and a stream of outcomes that ends
//! exactly when no work is queued or in flight.

pub mod address;
pub mod crawling;
pub mod fetching;
pub mod laws;
pub mod model;
pub mod parsing;
pub mod site;
