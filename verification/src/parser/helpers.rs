//! What the extractors of HTML tables share.

pub mod scraper;
