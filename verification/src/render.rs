//! The visible lines of one record: label/value pairs, empty fields
//! suppressed, in the fixed display order. Colour and indentation are the
//! printing layer's business; which fields appear, with which label and
//! which value, is decided and proved here.

use vstd::prelude::*;

use crate::model::{Assembly, Drive, ZendeskTicket};
use crate::numbers::{i64_to_string, int_dec};

verus! {

/// The views of rendered label/value pairs.
pub open spec fn line_views(s: Seq<(String, String)>) -> Seq<(Seq<char>, Seq<char>)> {
    s.map_values(|p: (String, String)| (p.0@, p.1@))
}

/// Append a label/value line when the value is non-empty.
pub open spec fn opt_line(
    s: Seq<(Seq<char>, Seq<char>)>,
    label: Seq<char>,
    value: Seq<char>,
) -> Seq<(Seq<char>, Seq<char>)> {
    if value.len() > 0 {
        s.push((label, value))
    } else {
        s
    }
}

/// The lines of an assembly, in display order; the build date is shown
/// separately through the date codec.
pub open spec fn assembly_lines(a: Assembly) -> Seq<(Seq<char>, Seq<char>)> {
    let s0 = Seq::empty();
    let s1 = opt_line(s0, "Serial Number:"@, a.serial_number@);
    let s2 = opt_line(s1, "Built by:"@, a.built_by@);
    let s3 = opt_line(s2, "Description:"@, a.description@);
    opt_line(s3, "Sales Order:"@, a.sales_order@)
}

/// The lines of a drive, in display order.
pub open spec fn drive_lines(d: Drive) -> Seq<(Seq<char>, Seq<char>)> {
    let s0 = Seq::empty();
    let s1 = opt_line(s0, "Enclosure SN:"@, d.enclosure_sn@);
    let s2 = opt_line(s1, "Drive SN:"@, d.drive_sn@);
    let s3 = opt_line(s2, "Drive Manufacturer:"@, d.drive_manufacturer@);
    let s4 = opt_line(s3, "Model:"@, d.model@);
    opt_line(s4, "Part Number:"@, d.part_number@)
}

/// The lines of a ticket, in display order; an absent RMA number (0) is
/// suppressed like an empty text field.
pub open spec fn ticket_lines(t: ZendeskTicket) -> Seq<(Seq<char>, Seq<char>)> {
    let s0 = Seq::empty();
    let s1 = if t.rma != 0 {
        s0.push(("RMA:"@, int_dec(t.rma as int)))
    } else {
        s0
    };
    let s2 = opt_line(s1, "Serial:"@, t.serial@);
    let s3 = opt_line(s2, "Drive:"@, t.drive@);
    let s4 = opt_line(s3, "Old Diagnosis:"@, t.old_diagnosis@);
    opt_line(s4, "New Diagnosis:"@, t.new_diagnosis@)
}

/// Render an assembly's visible fields.
pub fn render_assembly(a: &Assembly) -> (r: Vec<(String, String)>)
    ensures
        line_views(r@) == assembly_lines(*a),
{
    let mut r: Vec<(String, String)> = Vec::new();
    if !a.serial_number.as_str().is_empty() {
        r.push((crate::text::to_owned_str("Serial Number:"), a.serial_number.clone()));
    }
    if !a.built_by.as_str().is_empty() {
        r.push((crate::text::to_owned_str("Built by:"), a.built_by.clone()));
    }
    if !a.description.as_str().is_empty() {
        r.push((crate::text::to_owned_str("Description:"), a.description.clone()));
    }
    if !a.sales_order.as_str().is_empty() {
        r.push((crate::text::to_owned_str("Sales Order:"), a.sales_order.clone()));
    }
    proof {
        assert(line_views(r@) =~= assembly_lines(*a));
    }
    r
}

/// Render a drive's visible fields.
pub fn render_drive(d: &Drive) -> (r: Vec<(String, String)>)
    ensures
        line_views(r@) == drive_lines(*d),
{
    let mut r: Vec<(String, String)> = Vec::new();
    if !d.enclosure_sn.as_str().is_empty() {
        r.push((crate::text::to_owned_str("Enclosure SN:"), d.enclosure_sn.clone()));
    }
    if !d.drive_sn.as_str().is_empty() {
        r.push((crate::text::to_owned_str("Drive SN:"), d.drive_sn.clone()));
    }
    if !d.drive_manufacturer.as_str().is_empty() {
        r.push((crate::text::to_owned_str("Drive Manufacturer:"), d.drive_manufacturer.clone()));
    }
    if !d.model.as_str().is_empty() {
        r.push((crate::text::to_owned_str("Model:"), d.model.clone()));
    }
    if !d.part_number.as_str().is_empty() {
        r.push((crate::text::to_owned_str("Part Number:"), d.part_number.clone()));
    }
    proof {
        assert(line_views(r@) =~= drive_lines(*d));
    }
    r
}

/// Render a ticket's visible fields.
pub fn render_ticket(t: &ZendeskTicket) -> (r: Vec<(String, String)>)
    ensures
        line_views(r@) == ticket_lines(*t),
{
    let mut r: Vec<(String, String)> = Vec::new();
    if t.rma != 0 {
        r.push((crate::text::to_owned_str("RMA:"), i64_to_string(t.rma)));
    }
    if !t.serial.as_str().is_empty() {
        r.push((crate::text::to_owned_str("Serial:"), t.serial.clone()));
    }
    if !t.drive.as_str().is_empty() {
        r.push((crate::text::to_owned_str("Drive:"), t.drive.clone()));
    }
    if !t.old_diagnosis.as_str().is_empty() {
        r.push((crate::text::to_owned_str("Old Diagnosis:"), t.old_diagnosis.clone()));
    }
    if !t.new_diagnosis.as_str().is_empty() {
        r.push((crate::text::to_owned_str("New Diagnosis:"), t.new_diagnosis.clone()));
    }
    proof {
        assert(line_views(r@) =~= ticket_lines(*t));
    }
    r
}

} // verus!
