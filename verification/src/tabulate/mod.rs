//! TABULATE: table IR, cell formatters, colour helpers and HTML writer.

pub mod ast;
pub mod execute;
pub mod format;
pub mod html;
pub mod layout;
pub mod scale;
pub mod test_normalize;

use vstd::prelude::*;

verus! {

/// The stylesheet written before each table. Every style the writer
/// produces is inline; this sheet holds no rules, so no `<style>` element
/// is written.
pub const GT_DEFAULT_CSS: &'static str = "";

} // verus!
