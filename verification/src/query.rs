//! One interactive cycle: dispatch a raw input line to quit, the stubbed
//! previous-results filter, the date codec, or the search/correlate
//! pipeline, and say exactly what comes back.
//!
//! The search path caps each record set at 25 matches: past the cap the
//! cycle reports an ambiguous query naming the set and its count, and no
//! correlation takes place.

use vstd::prelude::*;

use crate::correlate::{expand, expand_spec, ReportEntry};
use crate::dates::{legacy_day_number, legacy_day_offset};
use crate::model::{AssembliesRoot, DrivesRoot, ZendeskRoot};
use crate::numbers::{parse_i64, parse_i64_spec};
use crate::search::{
    assembly_results, drive_results, search_in_assemblies, search_in_drives, search_in_zendesk,
    ticket_results,
};
use crate::text::{trim, trim_of};

verus! {

/// The record set a cap or a count speaks of.
#[derive(Debug, PartialEq, Eq, Structural, Clone, Copy)]
pub enum EntityKind {
    Assemblies,
    Drives,
    Tickets,
}

/// What one input line leads to.
#[derive(Debug, PartialEq, Eq)]
pub enum QueryOutcome {
    /// The user asked to leave the session.
    Quit,
    /// The previous-results filter prefix is not supported.
    FilterUnsupported,
    /// A date query decoded to this day number (from 1900-01-01).
    DateDecoded(i64),
    /// A date query whose payload is not a well-formed integer.
    InvalidDate,
    /// One record set matched more than 25 times: refine the search.
    Ambiguous { kind: EntityKind, count: usize },
    /// No record in any of the three sets matched.
    Empty,
    /// The correlated, deduplicated report of the matched records.
    Report(Vec<ReportEntry>),
}

/// A quit command: the trimmed input is exactly `Q`, either case.
pub open spec fn is_quit(t: Seq<char>) -> bool {
    t == seq!['Q'] || t == seq!['q']
}

/// Which record set, if any, overflows the 25-match cap: the first of
/// assemblies, drives, tickets, in that order.
pub open spec fn overflow_of(na: int, nd: int, nt: int) -> Option<(EntityKind, int)> {
    if na > 25 {
        Some((EntityKind::Assemblies, na))
    } else if nd > 25 {
        Some((EntityKind::Drives, nd))
    } else if nt > 25 {
        Some((EntityKind::Tickets, nt))
    } else {
        None
    }
}

/// Run one query cycle against the loaded collections.
pub fn run_query(
    input: &str,
    assemblies: &AssembliesRoot,
    drives: &DrivesRoot,
    zendesk: &ZendeskRoot,
) -> (r: QueryOutcome)
    ensures
        ({
            let t = trim_of(input@);
            let ra = assembly_results(assemblies.asms@, t);
            let rd = drive_results(drives.drive@, t);
            let rt = ticket_results(zendesk.zendesk_ticket@, t);
            let search_case = !is_quit(t) && (t.len() == 0 || (t[0] != '#' && t[0] != '$'));
            &&& (is_quit(t) <==> r is Quit)
            &&& (!is_quit(t) && t.len() > 0 && t[0] == '#' <==> r is FilterUnsupported)
            &&& (t.len() > 0 && t[0] == '$' ==> match parse_i64_spec(t.skip(1)) {
                Some(v) => r matches QueryOutcome::DateDecoded(day) && day as int
                    == legacy_day_number(v),
                None => r is InvalidDate,
            })
            &&& (search_case ==> match overflow_of(ra.len() as int, rd.len() as int, rt.len() as int) {
                Some(oc) => r == (QueryOutcome::Ambiguous { kind: oc.0, count: oc.1 as usize }),
                None => if ra.len() == 0 && rd.len() == 0 && rt.len() == 0 {
                    r is Empty
                } else {
                    r matches QueryOutcome::Report(entries) && entries@ == expand_spec(
                        ra,
                        rd,
                        rt,
                        drives.drive@,
                        zendesk.zendesk_ticket@,
                    ).entries
                },
            })
        }),
{
    let t = trim(input);
    let tlen = t.unicode_len();
    if tlen == 1 {
        let c = t.get_char(0);
        if c == 'Q' || c == 'q' {
            proof {
                if c == 'Q' {
                    assert(t@ =~= seq!['Q']);
                } else {
                    assert(t@ =~= seq!['q']);
                }
            }
            return QueryOutcome::Quit;
        }
    }
    proof {
        assert(!is_quit(t@));
    }
    if tlen > 0 {
        let c0 = t.get_char(0);
        if c0 == '#' {
            return QueryOutcome::FilterUnsupported;
        }
        if c0 == '$' {
            let payload = t.substring_char(1, tlen);
            proof {
                assert(payload@ =~= t@.skip(1));
            }
            return match parse_i64(payload) {
                Some(v) => QueryOutcome::DateDecoded(legacy_day_offset(v)),
                None => QueryOutcome::InvalidDate,
            };
        }
    }
    let ra = search_in_assemblies(assemblies, t);
    if ra.len() > 25 {
        return QueryOutcome::Ambiguous { kind: EntityKind::Assemblies, count: ra.len() };
    }
    let rd = search_in_drives(drives, t);
    if rd.len() > 25 {
        return QueryOutcome::Ambiguous { kind: EntityKind::Drives, count: rd.len() };
    }
    let rt = search_in_zendesk(zendesk, t);
    if rt.len() > 25 {
        return QueryOutcome::Ambiguous { kind: EntityKind::Tickets, count: rt.len() };
    }
    if ra.len() == 0 && rd.len() == 0 && rt.len() == 0 {
        return QueryOutcome::Empty;
    }
    let entries = expand(&ra, &rd, &rt, drives, zendesk);
    QueryOutcome::Report(entries)
}

/// Past the 25-match cap on any record set, the cycle is ambiguous: some
/// set is named as overflowing, so the outcome is never a report and no
/// correlation is performed.
pub proof fn lemma_overflow_is_ambiguous(na: int, nd: int, nt: int)
    requires
        na > 25 || nd > 25 || nt > 25,
    ensures
        overflow_of(na, nd, nt) is Some,
{
}

} // verus!
