//! The raw snapshot shapes, one per JSON file, exactly as the loader hands
//! them over, and their conversion into the engine's record model.
//!
//! The field spellings mirror the snapshot files; the conversions are the
//! only place where a snapshot shape becomes an engine record.

use vstd::prelude::*;

use crate::model::{
    AssembliesRoot, Assembly, Drive, DrivesRoot, ZendeskRoot, ZendeskTicket,
};

verus! {

/// The assemblies snapshot: a single array of assembly records.
#[allow(non_snake_case)]
#[derive(Debug, PartialEq, Eq)]
pub struct Root {
    pub ASM: Vec<ASM>,
}

/// One assembly record as it stands in the snapshot.
#[derive(Debug, PartialEq, Eq)]
pub struct ASM {
    pub serial_number: String,
    pub built_date: i64,
    pub built_by: String,
    pub description: String,
    pub sales_order: String,
}

/// The drive/enclosure snapshot: a single array of pairing records.
#[allow(non_snake_case)]
#[derive(Debug, PartialEq, Eq)]
pub struct Root2 {
    pub DWE: Vec<DWE>,
}

/// One drive/enclosure pairing as it stands in the snapshot.
#[derive(Debug, PartialEq, Eq)]
pub struct DWE {
    pub enclosure_sn: String,
    pub drive_sn: String,
    pub drive_manufacturer: String,
    pub drive_model: String,
    pub drive_part: String,
}

/// The ticket snapshot: a single array of ticket records.
#[derive(Debug, PartialEq, Eq)]
pub struct Root3 {
    pub zen: Vec<ZEN>,
}

/// One ticket as it stands in the snapshot. It carries an assembler name
/// that the engine does not use.
#[derive(Debug, PartialEq, Eq)]
pub struct ZEN {
    pub rma: i64,
    pub serial: String,
    pub drive: String,
    pub assembler: String,
    pub old_diagnosis: String,
    pub new_diagnosis: String,
}

impl ASM {
    /// Carry a snapshot assembly into the engine model, field for field.
    pub fn into_assembly(self) -> (r: Assembly)
        ensures
            r.serial_number == self.serial_number,
            r.built_date == self.built_date,
            r.built_by == self.built_by,
            r.description == self.description,
            r.sales_order == self.sales_order,
    {
        Assembly {
            serial_number: self.serial_number,
            built_date: self.built_date,
            built_by: self.built_by,
            description: self.description,
            sales_order: self.sales_order,
        }
    }
}

impl DWE {
    /// Carry a snapshot pairing into the engine model, field for field.
    pub fn into_drive(self) -> (r: Drive)
        ensures
            r.enclosure_sn == self.enclosure_sn,
            r.drive_sn == self.drive_sn,
            r.drive_manufacturer == self.drive_manufacturer,
            r.model == self.drive_model,
            r.part_number == self.drive_part,
    {
        Drive {
            enclosure_sn: self.enclosure_sn,
            drive_sn: self.drive_sn,
            drive_manufacturer: self.drive_manufacturer,
            model: self.drive_model,
            part_number: self.drive_part,
        }
    }
}

impl ZEN {
    /// Carry a snapshot ticket into the engine model; the assembler name is
    /// dropped, everything else moves field for field.
    pub fn into_ticket(self) -> (r: ZendeskTicket)
        ensures
            r.rma == self.rma,
            r.serial == self.serial,
            r.drive == self.drive,
            r.old_diagnosis == self.old_diagnosis,
            r.new_diagnosis == self.new_diagnosis,
    {
        ZendeskTicket {
            rma: self.rma,
            serial: self.serial,
            drive: self.drive,
            old_diagnosis: self.old_diagnosis,
            new_diagnosis: self.new_diagnosis,
        }
    }
}

/// An engine assembly carries the same data as a snapshot assembly.
pub open spec fn assembly_of(a: Assembly, s: ASM) -> bool {
    a.serial_number == s.serial_number && a.built_date == s.built_date && a.built_by == s.built_by
        && a.description == s.description && a.sales_order == s.sales_order
}

/// An engine drive carries the same data as a snapshot pairing.
pub open spec fn drive_of(d: Drive, s: DWE) -> bool {
    d.enclosure_sn == s.enclosure_sn && d.drive_sn == s.drive_sn && d.drive_manufacturer
        == s.drive_manufacturer && d.model == s.drive_model && d.part_number == s.drive_part
}

/// An engine ticket carries the same data as a snapshot ticket, the unused
/// assembler name aside.
pub open spec fn ticket_of(t: ZendeskTicket, s: ZEN) -> bool {
    t.rma == s.rma && t.serial == s.serial && t.drive == s.drive && t.old_diagnosis
        == s.old_diagnosis && t.new_diagnosis == s.new_diagnosis
}

impl Root {
    /// Convert the whole assemblies snapshot, keeping order.
    pub fn into_assemblies(self) -> (r: AssembliesRoot)
        ensures
            r.asms@.len() == self.ASM@.len(),
            forall|i: int|
                0 <= i < self.ASM@.len() ==> assembly_of(#[trigger] r.asms@[i], self.ASM@[i]),
    {
        let ghost orig = self.ASM@;
        let mut rest = self.ASM;
        let mut out: Vec<Assembly> = Vec::new();
        while rest.len() > 0
            invariant
                out@.len() + rest@.len() == orig.len(),
                rest@ == orig.skip(out@.len() as int),
                forall|j: int| 0 <= j < out@.len() ==> assembly_of(#[trigger] out@[j], orig[j]),
            decreases rest.len(),
        {
            proof {
                assert(rest@[0] == orig[out@.len() as int]);
                assert(rest@.remove(0) =~= orig.skip(out@.len() as int + 1));
            }
            let s = rest.remove(0);
            out.push(s.into_assembly());
        }
        AssembliesRoot { asms: out }
    }
}

impl Root2 {
    /// Convert the whole drive/enclosure snapshot, keeping order.
    pub fn into_drives(self) -> (r: DrivesRoot)
        ensures
            r.drive@.len() == self.DWE@.len(),
            forall|i: int|
                0 <= i < self.DWE@.len() ==> drive_of(#[trigger] r.drive@[i], self.DWE@[i]),
    {
        let ghost orig = self.DWE@;
        let mut rest = self.DWE;
        let mut out: Vec<Drive> = Vec::new();
        while rest.len() > 0
            invariant
                out@.len() + rest@.len() == orig.len(),
                rest@ == orig.skip(out@.len() as int),
                forall|j: int| 0 <= j < out@.len() ==> drive_of(#[trigger] out@[j], orig[j]),
            decreases rest.len(),
        {
            proof {
                assert(rest@[0] == orig[out@.len() as int]);
                assert(rest@.remove(0) =~= orig.skip(out@.len() as int + 1));
            }
            let s = rest.remove(0);
            out.push(s.into_drive());
        }
        DrivesRoot { drive: out }
    }
}

impl Root3 {
    /// Convert the whole ticket snapshot, keeping order.
    pub fn into_tickets(self) -> (r: ZendeskRoot)
        ensures
            r.zendesk_ticket@.len() == self.zen@.len(),
            forall|i: int|
                0 <= i < self.zen@.len() ==> ticket_of(#[trigger] r.zendesk_ticket@[i], self.zen@[i]),
    {
        let ghost orig = self.zen@;
        let mut rest = self.zen;
        let mut out: Vec<ZendeskTicket> = Vec::new();
        while rest.len() > 0
            invariant
                out@.len() + rest@.len() == orig.len(),
                rest@ == orig.skip(out@.len() as int),
                forall|j: int| 0 <= j < out@.len() ==> ticket_of(#[trigger] out@[j], orig[j]),
            decreases rest.len(),
        {
            proof {
                assert(rest@[0] == orig[out@.len() as int]);
                assert(rest@.remove(0) =~= orig.skip(out@.len() as int + 1));
            }
            let s = rest.remove(0);
            out.push(s.into_ticket());
        }
        ZendeskRoot { zendesk_ticket: out }
    }
}

} // verus!
