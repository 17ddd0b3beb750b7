//! The three record shapes the engine works over, their searchable fields,
//! and the match predicate of the search engine.
//!
//! All three collections are loaded once, never changed, and addressed only
//! by scanning; relationships between them are recomputed by predicate.

use vstd::prelude::*;

use crate::numbers::int_dec;
use crate::text::{contains_seq, upper_of};

verus! {

/// A built hardware unit, identified by its serial number.
#[derive(Debug, PartialEq, Eq)]
pub struct Assembly {
    pub serial_number: String,
    /// Milliseconds in the legacy spreadsheet day-count encoding; 0 = absent.
    pub built_date: i64,
    pub built_by: String,
    pub description: String,
    pub sales_order: String,
}

/// A physical disk installed in an enclosure, linked to an [`Assembly`]
/// through `enclosure_sn`.
#[derive(Debug, PartialEq, Eq)]
pub struct Drive {
    pub enclosure_sn: String,
    pub drive_sn: String,
    pub drive_manufacturer: String,
    pub model: String,
    pub part_number: String,
}

/// A support record referencing an assembly serial and/or a drive serial.
#[derive(Debug, PartialEq, Eq)]
pub struct ZendeskTicket {
    /// Numeric identity key; 0 = absent/invalid.
    pub rma: i64,
    pub serial: String,
    pub drive: String,
    pub old_diagnosis: String,
    pub new_diagnosis: String,
}

/// The assemblies collection as loaded at startup.
#[derive(Debug, PartialEq, Eq)]
pub struct AssembliesRoot {
    pub asms: Vec<Assembly>,
}

/// The drive/enclosure collection as loaded at startup.
#[derive(Debug, PartialEq, Eq)]
pub struct DrivesRoot {
    pub drive: Vec<Drive>,
}

/// The ticket collection as loaded at startup.
#[derive(Debug, PartialEq, Eq)]
pub struct ZendeskRoot {
    pub zendesk_ticket: Vec<ZendeskTicket>,
}

/// One searchable text field, upper-cased, contains the normalized term.
pub open spec fn field_has(field: Seq<char>, q: Seq<char>) -> bool {
    contains_seq(upper_of(field), q)
}

impl Assembly {
    /// The search engine's match rule for assemblies: the normalized term
    /// occurs in the serial number, the sales order, or the description.
    pub open spec fn matches(self, q: Seq<char>) -> bool {
        ||| field_has(self.serial_number@, q)
        ||| field_has(self.sales_order@, q)
        ||| field_has(self.description@, q)
    }
}

impl Drive {
    /// The match rule for drives: any of the five text fields contains the
    /// normalized term.
    pub open spec fn matches(self, q: Seq<char>) -> bool {
        ||| field_has(self.enclosure_sn@, q)
        ||| field_has(self.drive_sn@, q)
        ||| field_has(self.drive_manufacturer@, q)
        ||| field_has(self.model@, q)
        ||| field_has(self.part_number@, q)
    }
}

impl ZendeskTicket {
    /// The match rule for tickets: the decimal rendering of the RMA number
    /// or any of the four text fields contains the normalized term.
    pub open spec fn matches(self, q: Seq<char>) -> bool {
        ||| contains_seq(upper_of(int_dec(self.rma as int)), q)
        ||| field_has(self.serial@, q)
        ||| field_has(self.drive@, q)
        ||| field_has(self.old_diagnosis@, q)
        ||| field_has(self.new_diagnosis@, q)
    }
}

impl Clone for Assembly {
    fn clone(&self) -> (r: Self)
        ensures
            r == *self,
    {
        Assembly {
            serial_number: self.serial_number.clone(),
            built_date: self.built_date,
            built_by: self.built_by.clone(),
            description: self.description.clone(),
            sales_order: self.sales_order.clone(),
        }
    }
}

impl Clone for Drive {
    fn clone(&self) -> (r: Self)
        ensures
            r == *self,
    {
        Drive {
            enclosure_sn: self.enclosure_sn.clone(),
            drive_sn: self.drive_sn.clone(),
            drive_manufacturer: self.drive_manufacturer.clone(),
            model: self.model.clone(),
            part_number: self.part_number.clone(),
        }
    }
}

impl Clone for ZendeskTicket {
    fn clone(&self) -> (r: Self)
        ensures
            r == *self,
    {
        ZendeskTicket {
            rma: self.rma,
            serial: self.serial.clone(),
            drive: self.drive.clone(),
            old_diagnosis: self.old_diagnosis.clone(),
            new_diagnosis: self.new_diagnosis.clone(),
        }
    }
}

} // verus!
