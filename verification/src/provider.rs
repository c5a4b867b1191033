//! What a provider poll reports.

use crate::money::Cents;
use crate::text::clone_opt;
use vstd::prelude::*;

verus! {

/// Opaque resumption marker. Providers define what it means.
#[derive(Debug)]
pub struct Cursor(pub Option<String>);

impl Clone for Cursor {
    fn clone(&self) -> (r: Cursor)
        ensures
            r == *self,
    {
        Cursor(clone_opt(&self.0))
    }
}

impl core::default::Default for Cursor {
    fn default() -> (r: Cursor)
        ensures
            r.0 is None,
    {
        Cursor(None)
    }
}

/// The outcome of one refresh.
#[derive(Debug)]
pub struct RefreshReport {
    pub provider_kind: String,
    pub rows_written: u32,
    pub cursor: Cursor,
    pub message: Option<String>,
}

impl Clone for RefreshReport {
    fn clone(&self) -> (r: RefreshReport)
        ensures
            r == *self,
    {
        RefreshReport {
            provider_kind: self.provider_kind.clone(),
            rows_written: self.rows_written,
            cursor: self.cursor.clone(),
            message: clone_opt(&self.message),
        }
    }
}

impl core::default::Default for RefreshReport {
    fn default() -> (r: RefreshReport)
        ensures
            r.provider_kind@ == Seq::<char>::empty(),
            r.rows_written == 0,
            r.cursor.0 is None,
            r.message is None,
    {
        RefreshReport {
            provider_kind: String::new(),
            rows_written: 0,
            cursor: Cursor(None),
            message: None,
        }
    }
}

/// Month-to-date spend of a usage-based provider.
#[derive(Debug)]
pub struct UsageReport {
    pub provider_kind: String,
    pub mtd_cost: Cents,
    pub message: Option<String>,
}

} // verus!
