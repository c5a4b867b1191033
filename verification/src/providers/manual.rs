//! The manual provider: its data comes in by request, from no outside source.

use super::report;
use crate::provider::RefreshReport;
use vstd::prelude::*;

verus! {

use super::is_report;

/// The provider whose data is entered by hand.
pub struct ManualProvider {
    pub label: String,
}

impl ManualProvider {
    /// The one manual provider.
    pub fn new() -> (r: ManualProvider)
        ensures
            r.label@ == "manual"@,
    {
        ManualProvider { label: "manual".to_owned() }
    }

    /// The kind of its provider row.
    pub fn kind(&self) -> (r: &'static str)
        ensures
            r@ == "manual"@,
    {
        "manual"
    }

    /// The label of its provider row.
    pub fn label(&self) -> (r: &str)
        ensures
            r@ == self.label@,
    {
        self.label.as_str()
    }

    /// Polling does nothing.
    pub fn refresh(&self) -> (r: RefreshReport)
        ensures
            is_report(r, "manual"@, 0, Some("manual provider: no remote source"@)),
    {
        report("manual", 0, Some("manual provider: no remote source".to_owned()))
    }
}

impl core::default::Default for ManualProvider {
    fn default() -> (r: ManualProvider)
        ensures
            r.label@ == "manual"@,
    {
        ManualProvider::new()
    }
}

} // verus!
