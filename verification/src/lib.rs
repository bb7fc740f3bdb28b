//! Extraction of structured data from JavaScript source text found in HTML
//! `<script>` elements: a string-literal escape decoder, bracket- and
//! string-aware statement scanners, a `JSON.parse(...)` argument extractor,
//! a variable-value resolver, a balanced-region scanner under two quoting
//! conventions, and an extractor for server-component push payloads.

pub mod chars;
pub mod html;
pub mod js_decode;
pub mod jsonio;
pub mod repair;
pub mod rsc;
pub mod scan;

pub use html::compact_json_text;
pub use html::extract_all_elements;
pub use html::extract_all_text;
pub use html::extract_all_with_mode;
pub use html::ExtractMode;
pub use html::HqConfig;
pub use repair::escape_json_control_chars;
pub use rsc::extract_rsc_payloads;
pub use scan::balanced_region;
pub use scan::QuoteConvention;
