//! The search engine: a case-insensitive substring filter over each record
//! set, preserving collection order.
//!
//! A record matches when any of its searchable fields, upper-cased, contains
//! the trimmed and upper-cased search term; the result is exactly the
//! subsequence of matching records.

use vstd::prelude::*;

use crate::model::{AssembliesRoot, Assembly, Drive, DrivesRoot, ZendeskRoot, ZendeskTicket};
use crate::numbers::i64_to_string;
use crate::text::{norm_of, normalize_term, str_contains, to_upper};

verus! {

/// The matching assemblies, in collection order.
pub open spec fn assembly_results(assemblies: Seq<Assembly>, term: Seq<char>) -> Seq<Assembly> {
    assemblies.filter(|a: Assembly| a.matches(norm_of(term)))
}

/// The matching drives, in collection order.
pub open spec fn drive_results(drives: Seq<Drive>, term: Seq<char>) -> Seq<Drive> {
    drives.filter(|d: Drive| d.matches(norm_of(term)))
}

/// The matching tickets, in collection order.
pub open spec fn ticket_results(tickets: Seq<ZendeskTicket>, term: Seq<char>) -> Seq<ZendeskTicket> {
    tickets.filter(|t: ZendeskTicket| t.matches(norm_of(term)))
}

/// Filtering one more element extends the filtered prefix by that element
/// exactly when it satisfies the predicate.
proof fn lemma_filter_take_step<A>(s: Seq<A>, pred: spec_fn(A) -> bool, i: int)
    requires
        0 <= i < s.len(),
    ensures
        s.take(i + 1).filter(pred) == if pred(s[i]) {
            s.take(i).filter(pred).push(s[i])
        } else {
            s.take(i).filter(pred)
        },
{
    reveal_with_fuel(Seq::filter, 2);
    assert(s.take(i + 1).drop_last() =~= s.take(i));
    assert(s.take(i + 1).last() == s[i]);
    assert(s.take(i + 1).len() == i + 1 > 0);
}

/// Does the normalized term occur in this assembly's searchable fields?
pub fn assembly_matches(a: &Assembly, q: &str) -> (r: bool)
    ensures
        r == a.matches(q@),
{
    str_contains(to_upper(a.serial_number.as_str()).as_str(), q) || str_contains(
        to_upper(a.sales_order.as_str()).as_str(),
        q,
    ) || str_contains(to_upper(a.description.as_str()).as_str(), q)
}

/// Does the normalized term occur in this drive's searchable fields?
pub fn drive_matches(d: &Drive, q: &str) -> (r: bool)
    ensures
        r == d.matches(q@),
{
    str_contains(to_upper(d.enclosure_sn.as_str()).as_str(), q) || str_contains(
        to_upper(d.drive_sn.as_str()).as_str(),
        q,
    ) || str_contains(to_upper(d.drive_manufacturer.as_str()).as_str(), q) || str_contains(
        to_upper(d.model.as_str()).as_str(),
        q,
    ) || str_contains(to_upper(d.part_number.as_str()).as_str(), q)
}

/// Does the normalized term occur in this ticket's searchable fields,
/// the decimal rendering of its RMA number included?
pub fn ticket_matches(t: &ZendeskTicket, q: &str) -> (r: bool)
    ensures
        r == t.matches(q@),
{
    let rma_text = i64_to_string(t.rma);
    str_contains(to_upper(rma_text.as_str()).as_str(), q) || str_contains(
        to_upper(t.serial.as_str()).as_str(),
        q,
    ) || str_contains(to_upper(t.drive.as_str()).as_str(), q) || str_contains(
        to_upper(t.old_diagnosis.as_str()).as_str(),
        q,
    ) || str_contains(to_upper(t.new_diagnosis.as_str()).as_str(), q)
}

/// Every assembly with the term in one of its searchable fields, in order.
#[verifier::loop_isolation(false)]
pub fn search_in_assemblies(assemblies: &AssembliesRoot, search_term: &str) -> (r: Vec<Assembly>)
    ensures
        r@ == assembly_results(assemblies.asms@, search_term@),
{
    let q = normalize_term(search_term);
    let ghost pred = |a: Assembly| a.matches(norm_of(search_term@));
    let mut out: Vec<Assembly> = Vec::new();
    proof {
        assert(assemblies.asms@.take(0) =~= Seq::<Assembly>::empty());
        reveal_with_fuel(Seq::filter, 1);
    }
    let n = assemblies.asms.len();
    let mut i: usize = 0;
    while i < n
        invariant
            0 <= i <= n,
            out@ == assemblies.asms@.take(i as int).filter(pred),
        decreases n - i,
    {
        proof {
            lemma_filter_take_step(assemblies.asms@, pred, i as int);
        }
        if assembly_matches(&assemblies.asms[i], q.as_str()) {
            out.push(assemblies.asms[i].clone());
        }
        i += 1;
    }
    proof {
        assert(assemblies.asms@.take(n as int) =~= assemblies.asms@);
    }
    out
}

/// Every drive with the term in one of its searchable fields, in order.
#[verifier::loop_isolation(false)]
pub fn search_in_drives(drives: &DrivesRoot, search_term: &str) -> (r: Vec<Drive>)
    ensures
        r@ == drive_results(drives.drive@, search_term@),
{
    let q = normalize_term(search_term);
    let ghost pred = |d: Drive| d.matches(norm_of(search_term@));
    let mut out: Vec<Drive> = Vec::new();
    proof {
        assert(drives.drive@.take(0) =~= Seq::<Drive>::empty());
        reveal_with_fuel(Seq::filter, 1);
    }
    let n = drives.drive.len();
    let mut i: usize = 0;
    while i < n
        invariant
            0 <= i <= n,
            out@ == drives.drive@.take(i as int).filter(pred),
        decreases n - i,
    {
        proof {
            lemma_filter_take_step(drives.drive@, pred, i as int);
        }
        if drive_matches(&drives.drive[i], q.as_str()) {
            out.push(drives.drive[i].clone());
        }
        i += 1;
    }
    proof {
        assert(drives.drive@.take(n as int) =~= drives.drive@);
    }
    out
}

/// Every ticket with the term in one of its searchable fields, in order.
#[verifier::loop_isolation(false)]
pub fn search_in_zendesk(zendesk: &ZendeskRoot, search_term: &str) -> (r: Vec<ZendeskTicket>)
    ensures
        r@ == ticket_results(zendesk.zendesk_ticket@, search_term@),
{
    let q = normalize_term(search_term);
    let ghost pred = |t: ZendeskTicket| t.matches(norm_of(search_term@));
    let mut out: Vec<ZendeskTicket> = Vec::new();
    proof {
        assert(zendesk.zendesk_ticket@.take(0) =~= Seq::<ZendeskTicket>::empty());
        reveal_with_fuel(Seq::filter, 1);
    }
    let n = zendesk.zendesk_ticket.len();
    let mut i: usize = 0;
    while i < n
        invariant
            0 <= i <= n,
            out@ == zendesk.zendesk_ticket@.take(i as int).filter(pred),
        decreases n - i,
    {
        proof {
            lemma_filter_take_step(zendesk.zendesk_ticket@, pred, i as int);
        }
        if ticket_matches(&zendesk.zendesk_ticket[i], q.as_str()) {
            out.push(zendesk.zendesk_ticket[i].clone());
        }
        i += 1;
    }
    proof {
        assert(zendesk.zendesk_ticket@.take(n as int) =~= zendesk.zendesk_ticket@);
    }
    out
}

/// Any record whose searchable fields contain the normalized term, as a
/// case-insensitive substring, is among the search results.
pub proof fn lemma_search_finds_assembly(assemblies: Seq<Assembly>, term: Seq<char>, i: int)
    requires
        0 <= i < assemblies.len(),
        assemblies[i].matches(norm_of(term)),
    ensures
        assembly_results(assemblies, term).contains(assemblies[i]),
{
    assemblies.lemma_filter_contains(|a: Assembly| a.matches(norm_of(term)), i);
}

/// The drive counterpart of `lemma_search_finds_assembly`.
pub proof fn lemma_search_finds_drive(drives: Seq<Drive>, term: Seq<char>, i: int)
    requires
        0 <= i < drives.len(),
        drives[i].matches(norm_of(term)),
    ensures
        drive_results(drives, term).contains(drives[i]),
{
    drives.lemma_filter_contains(|d: Drive| d.matches(norm_of(term)), i);
}

/// The ticket counterpart of `lemma_search_finds_assembly`.
pub proof fn lemma_search_finds_ticket(tickets: Seq<ZendeskTicket>, term: Seq<char>, i: int)
    requires
        0 <= i < tickets.len(),
        tickets[i].matches(norm_of(term)),
    ensures
        ticket_results(tickets, term).contains(tickets[i]),
{
    tickets.lemma_filter_contains(|t: ZendeskTicket| t.matches(norm_of(term)), i);
}

/// Searching is a pure function of the normalized term: two terms that
/// normalize alike give the same ordered results, so re-running a search
/// with the same normalized term repeats the result exactly.
pub proof fn lemma_search_depends_on_normalized_term(
    assemblies: Seq<Assembly>,
    drives: Seq<Drive>,
    tickets: Seq<ZendeskTicket>,
    term1: Seq<char>,
    term2: Seq<char>,
)
    requires
        norm_of(term1) == norm_of(term2),
    ensures
        assembly_results(assemblies, term1) == assembly_results(assemblies, term2),
        drive_results(drives, term1) == drive_results(drives, term2),
        ticket_results(tickets, term1) == ticket_results(tickets, term2),
{
    assert((|a: Assembly| a.matches(norm_of(term1))) =~= (|a: Assembly| a.matches(norm_of(term2))));
    assert((|d: Drive| d.matches(norm_of(term1))) =~= (|d: Drive| d.matches(norm_of(term2))));
    assert((|t: ZendeskTicket| t.matches(norm_of(term1))) =~= (
    |t: ZendeskTicket| t.matches(norm_of(term2))));
}

} // verus!
