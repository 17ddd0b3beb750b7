use glyphdb::correlate::{expand, ReportEntry, ReportItem};
use glyphdb::model::{
    AssembliesRoot, Assembly, Drive, DrivesRoot, ZendeskRoot, ZendeskTicket,
};
use glyphdb::query::{run_query, EntityKind, QueryOutcome};
use glyphdb::search::{search_in_assemblies, search_in_drives, search_in_zendesk};

fn assembly(serial: &str, built_by: &str, description: &str, sales_order: &str) -> Assembly {
    Assembly {
        serial_number: serial.to_string(),
        built_date: 0,
        built_by: built_by.to_string(),
        description: description.to_string(),
        sales_order: sales_order.to_string(),
    }
}

fn drive(enclosure: &str, sn: &str, manufacturer: &str) -> Drive {
    Drive {
        enclosure_sn: enclosure.to_string(),
        drive_sn: sn.to_string(),
        drive_manufacturer: manufacturer.to_string(),
        model: String::new(),
        part_number: String::new(),
    }
}

fn ticket(rma: i64, serial: &str, drv: &str) -> ZendeskTicket {
    ZendeskTicket {
        rma,
        serial: serial.to_string(),
        drive: drv.to_string(),
        old_diagnosis: String::new(),
        new_diagnosis: String::new(),
    }
}

fn sample_db() -> (AssembliesRoot, DrivesRoot, ZendeskRoot) {
    let assemblies = AssembliesRoot {
        asms: vec![assembly("SN100", "ACME", "storage shelf", "SO-7")],
    };
    let drives = DrivesRoot { drive: vec![drive("SN100", "D1", "Seagate")] };
    let tickets = ZendeskRoot { zendesk_ticket: vec![ticket(55, "SN100", "D1")] };
    (assemblies, drives, tickets)
}

#[test]
fn search_finds_case_insensitive_substrings() {
    let (assemblies, _, _) = sample_db();
    // lower-case query against an upper-case field
    assert_eq!(search_in_assemblies(&assemblies, "n10").len(), 1);
    // query against the description and the sales order too
    assert_eq!(search_in_assemblies(&assemblies, "SHELF").len(), 1);
    assert_eq!(search_in_assemblies(&assemblies, "so-7").len(), 1);
    // the builder field is not searchable on assemblies
    assert_eq!(search_in_assemblies(&assemblies, "ACME").len(), 0);
    assert_eq!(search_in_assemblies(&assemblies, "missing").len(), 0);
}

#[test]
fn search_trims_the_term() {
    let (assemblies, _, _) = sample_db();
    assert_eq!(search_in_assemblies(&assemblies, "  sn100  ").len(), 1);
}

#[test]
fn search_with_empty_term_matches_every_record() {
    let (assemblies, drives, tickets) = sample_db();
    assert_eq!(search_in_assemblies(&assemblies, "").len(), 1);
    assert_eq!(search_in_drives(&drives, "").len(), 1);
    assert_eq!(search_in_zendesk(&tickets, "").len(), 1);
}

#[test]
fn search_matches_ticket_rma_as_decimal_text() {
    let (_, _, tickets) = sample_db();
    assert_eq!(search_in_zendesk(&tickets, "55").len(), 1);
    assert_eq!(search_in_zendesk(&tickets, "56").len(), 0);
}

#[test]
fn search_is_repeatable() {
    let (_, drives, _) = sample_db();
    let first = search_in_drives(&drives, "seagate");
    let second = search_in_drives(&drives, "seagate");
    assert_eq!(first, second);
    let differently_spelled = search_in_drives(&drives, "  SeAgAtE ");
    assert_eq!(first, differently_spelled);
}

#[test]
fn search_keeps_collection_order() {
    let assemblies = AssembliesRoot {
        asms: vec![
            assembly("A-2", "", "", ""),
            assembly("B-9", "", "", ""),
            assembly("A-1", "", "", ""),
        ],
    };
    let found = search_in_assemblies(&assemblies, "A-");
    assert_eq!(found.len(), 2);
    assert_eq!(found[0].serial_number, "A-2");
    assert_eq!(found[1].serial_number, "A-1");
}

#[test]
fn quit_is_case_insensitive_and_trimmed() {
    let (assemblies, drives, tickets) = sample_db();
    assert_eq!(run_query("Q", &assemblies, &drives, &tickets), QueryOutcome::Quit);
    assert_eq!(run_query("q", &assemblies, &drives, &tickets), QueryOutcome::Quit);
    assert_eq!(run_query("  Q  ", &assemblies, &drives, &tickets), QueryOutcome::Quit);
    // a longer word is an ordinary search
    assert_eq!(run_query("QQ", &assemblies, &drives, &tickets), QueryOutcome::Empty);
}

#[test]
fn previous_results_filter_is_not_supported() {
    let (assemblies, drives, tickets) = sample_db();
    assert_eq!(
        run_query("#SN100", &assemblies, &drives, &tickets),
        QueryOutcome::FilterUnsupported
    );
}

#[test]
fn date_query_decodes_or_reports_invalid() {
    let (assemblies, drives, tickets) = sample_db();
    assert_eq!(
        run_query("$1609459200000", &assemblies, &drives, &tickets),
        QueryOutcome::DateDecoded(44197)
    );
    assert_eq!(
        run_query("$-86400001", &assemblies, &drives, &tickets),
        QueryOutcome::DateDecoded(25568)
    );
    assert_eq!(
        run_query("$not-a-number", &assemblies, &drives, &tickets),
        QueryOutcome::InvalidDate
    );
    assert_eq!(run_query("$", &assemblies, &drives, &tickets), QueryOutcome::InvalidDate);
}

#[test]
fn no_match_reports_empty() {
    let (assemblies, drives, tickets) = sample_db();
    assert_eq!(
        run_query("nothing-here", &assemblies, &drives, &tickets),
        QueryOutcome::Empty
    );
}

#[test]
fn empty_collections_are_tolerated() {
    let assemblies = AssembliesRoot { asms: vec![] };
    let drives = DrivesRoot { drive: vec![] };
    let tickets = ZendeskRoot { zendesk_ticket: vec![] };
    assert_eq!(run_query("SN100", &assemblies, &drives, &tickets), QueryOutcome::Empty);
    assert_eq!(run_query("", &assemblies, &drives, &tickets), QueryOutcome::Empty);
}

#[test]
fn more_than_25_matches_is_ambiguous() {
    let mut asms = Vec::new();
    for i in 0..26 {
        asms.push(assembly(&format!("SN-{}", i), "", "", ""));
    }
    let assemblies = AssembliesRoot { asms };
    let drives = DrivesRoot { drive: vec![] };
    let tickets = ZendeskRoot { zendesk_ticket: vec![] };
    assert_eq!(
        run_query("SN-", &assemblies, &drives, &tickets),
        QueryOutcome::Ambiguous { kind: EntityKind::Assemblies, count: 26 }
    );
    // exactly 25 matches is still a report
    let mut asms25 = Vec::new();
    for i in 0..25 {
        asms25.push(assembly(&format!("SN-{}", i), "", "", ""));
    }
    let at_cap = AssembliesRoot { asms: asms25 };
    let outcome = run_query("SN-", &at_cap, &drives, &tickets);
    assert!(matches!(outcome, QueryOutcome::Report(_)));
}

#[test]
fn ticket_overflow_is_reported_as_tickets() {
    let mut tkts = Vec::new();
    for i in 0..26 {
        tkts.push(ticket(1000 + i, "TKT-serial", ""));
    }
    let assemblies = AssembliesRoot { asms: vec![] };
    let drives = DrivesRoot { drive: vec![] };
    let tickets = ZendeskRoot { zendesk_ticket: tkts };
    assert_eq!(
        run_query("TKT-", &assemblies, &drives, &tickets),
        QueryOutcome::Ambiguous { kind: EntityKind::Tickets, count: 26 }
    );
}

#[test]
fn ambiguity_names_the_first_overflowing_set() {
    let mut drv = Vec::new();
    for i in 0..30 {
        drv.push(drive("E", &format!("D-{}", i), "XK-disks"));
    }
    let assemblies = AssembliesRoot { asms: vec![assembly("XK-1", "", "", "")] };
    let drives = DrivesRoot { drive: drv };
    let tickets = ZendeskRoot { zendesk_ticket: vec![] };
    // assemblies stay under the cap, drives overflow
    assert_eq!(
        run_query("XK", &assemblies, &drives, &tickets),
        QueryOutcome::Ambiguous { kind: EntityKind::Drives, count: 30 }
    );
}

#[test]
fn correlation_nests_and_never_repeats_a_record() {
    // the ticket is reachable through the drive and through the assembly
    let (assemblies, drives, tickets) = sample_db();
    let outcome = run_query("SN100", &assemblies, &drives, &tickets);
    let entries = match outcome {
        QueryOutcome::Report(e) => e,
        other => panic!("expected a report, got {:?}", other),
    };
    assert_eq!(entries.len(), 3);
    assert!(matches!(&entries[0].item, ReportItem::Assembly(a) if a.serial_number == "SN100"));
    assert_eq!(entries[0].depth, 0);
    assert!(matches!(&entries[1].item, ReportItem::Drive(d) if d.drive_sn == "D1"));
    assert_eq!(entries[1].depth, 1);
    assert!(matches!(&entries[2].item, ReportItem::Ticket(t) if t.rma == 55));
    assert_eq!(entries[2].depth, 1);
}

#[test]
fn direct_drive_match_pulls_its_tickets() {
    let (_, drives, tickets) = sample_db();
    let matched_d = search_in_drives(&drives, "D1");
    let entries = expand(&Vec::new(), &matched_d, &Vec::new(), &drives, &tickets);
    assert_eq!(entries.len(), 2);
    assert!(matches!(&entries[0].item, ReportItem::Drive(d) if d.drive_sn == "D1"));
    assert_eq!(entries[0].depth, 0);
    assert!(matches!(&entries[1].item, ReportItem::Ticket(t) if t.rma == 55));
    assert_eq!(entries[1].depth, 1);
}

#[test]
fn empty_keys_never_join() {
    // an assembly with an empty serial must not pick up drives with an
    // empty enclosure serial, nor tickets with an empty serial
    let assemblies = AssembliesRoot {
        asms: vec![assembly("", "", "orphan unit", "")],
    };
    let drives = DrivesRoot { drive: vec![drive("", "D9", "Foo")] };
    let tickets = ZendeskRoot { zendesk_ticket: vec![ticket(7, "", "")] };
    let outcome = run_query("orphan", &assemblies, &drives, &tickets);
    let entries = match outcome {
        QueryOutcome::Report(e) => e,
        other => panic!("expected a report, got {:?}", other),
    };
    assert_eq!(entries.len(), 1);
    assert!(matches!(&entries[0].item, ReportItem::Assembly(_)));
}

#[test]
fn report_order_is_assemblies_then_drives_then_tickets() {
    let assemblies = AssembliesRoot { asms: vec![assembly("AX-1", "", "", "")] };
    let drives = DrivesRoot { drive: vec![drive("other", "AX-2", "m")] };
    let tickets = ZendeskRoot { zendesk_ticket: vec![ticket(9, "AX-3", "none")] };
    let outcome = run_query("AX-", &assemblies, &drives, &tickets);
    let entries = match outcome {
        QueryOutcome::Report(e) => e,
        other => panic!("expected a report, got {:?}", other),
    };
    let kinds: Vec<u8> = entries
        .iter()
        .map(|e: &ReportEntry| match e.item {
            ReportItem::Assembly(_) => 0u8,
            ReportItem::Drive(_) => 1u8,
            ReportItem::Ticket(_) => 2u8,
        })
        .collect();
    assert_eq!(kinds, vec![0, 1, 2]);
    assert!(entries.iter().all(|e| e.depth == 0));
}

#[test]
fn duplicate_serials_are_reported_once() {
    let assemblies = AssembliesRoot {
        asms: vec![
            assembly("DUP-1", "", "first copy", ""),
            assembly("DUP-1", "", "second copy", ""),
        ],
    };
    let drives = DrivesRoot { drive: vec![] };
    let tickets = ZendeskRoot { zendesk_ticket: vec![] };
    let outcome = run_query("DUP-1", &assemblies, &drives, &tickets);
    let entries = match outcome {
        QueryOutcome::Report(e) => e,
        other => panic!("expected a report, got {:?}", other),
    };
    assert_eq!(entries.len(), 1);
}
