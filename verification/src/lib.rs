//! Native conversion of Word 97-2003 binary documents to WordprocessingML.
pub mod ir;
pub mod strings;
pub mod bytes;
pub mod fib;
pub mod clx;
pub mod story;
pub mod tags;
pub mod textbox;
pub mod paragraphs;
pub mod sprm;
pub mod props;
pub mod formatting;
pub mod chpx;
pub mod numbering;
pub mod document;
pub mod xml;
pub mod wordml;
pub mod ooxml;
pub mod validation;
pub mod report;
pub mod digest;
pub mod container;
pub mod laws;
