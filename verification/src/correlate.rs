//! The correlator: expands the matched anchor records of one query into an
//! ordered, deduplicated report by following the foreign-key links between
//! the three record sets.
//!
//! The traversal order is fixed: each matched assembly with its related
//! drives and tickets nested one level deep, then the matched drives not yet
//! shown with their related tickets, then the matched tickets not yet shown.
//! A record never appears twice in one expansion, whatever number of paths
//! lead to it, and an empty key field never acts as a join target.

use vstd::prelude::*;

use crate::model::{Assembly, Drive, DrivesRoot, ZendeskRoot, ZendeskTicket};

verus! {

/// One record in a report, tagged with the set it came from.
#[derive(Debug, PartialEq, Eq)]
pub enum ReportItem {
    Assembly(Assembly),
    Drive(Drive),
    Ticket(ZendeskTicket),
}

/// One line of a report: a record at a nesting depth (0 = anchor,
/// 1 = reached through a relationship).
#[derive(Debug, PartialEq, Eq)]
pub struct ReportEntry {
    pub item: ReportItem,
    pub depth: usize,
}

/// The state a correlation expansion threads along: the report so far and
/// the identity keys already shown, one list per record set.
pub struct ExpandState {
    pub entries: Seq<ReportEntry>,
    pub printed_assemblies: Seq<Seq<char>>,
    pub printed_drives: Seq<Seq<char>>,
    pub printed_tickets: Seq<int>,
}

pub open spec fn initial_state() -> ExpandState {
    ExpandState {
        entries: Seq::empty(),
        printed_assemblies: Seq::empty(),
        printed_drives: Seq::empty(),
        printed_tickets: Seq::empty(),
    }
}

/// Tickets related to an assembly: a non-empty serial that the ticket
/// names as its assembly serial.
pub open spec fn by_serial(serial: Seq<char>) -> spec_fn(ZendeskTicket) -> bool {
    |t: ZendeskTicket| serial.len() > 0 && t.serial@ == serial
}

/// Tickets related to a drive: a non-empty drive serial that the ticket
/// names as its drive.
pub open spec fn by_drive(drive_sn: Seq<char>) -> spec_fn(ZendeskTicket) -> bool {
    |t: ZendeskTicket| drive_sn.len() > 0 && t.drive@ == drive_sn
}

/// The trivial filter for tickets that are anchors themselves.
pub open spec fn every_ticket() -> spec_fn(ZendeskTicket) -> bool {
    |t: ZendeskTicket| true
}

/// Show one ticket, unless it fails the filter or was already shown.
pub open spec fn ticket_step(
    t: ZendeskTicket,
    pred: spec_fn(ZendeskTicket) -> bool,
    depth: usize,
    st: ExpandState,
) -> ExpandState {
    if pred(t) && !st.printed_tickets.contains(t.rma as int) {
        ExpandState {
            entries: st.entries.push(ReportEntry { item: ReportItem::Ticket(t), depth }),
            printed_assemblies: st.printed_assemblies,
            printed_drives: st.printed_drives,
            printed_tickets: st.printed_tickets.push(t.rma as int),
        }
    } else {
        st
    }
}

/// Walk a ticket list in order, showing the unshown ones the filter keeps.
pub open spec fn tickets_fold(
    ts: Seq<ZendeskTicket>,
    pred: spec_fn(ZendeskTicket) -> bool,
    depth: usize,
    st: ExpandState,
) -> ExpandState
    decreases ts.len(),
{
    if ts.len() == 0 {
        st
    } else {
        ticket_step(ts.last(), pred, depth, tickets_fold(ts.drop_last(), pred, depth, st))
    }
}

/// Show one drive nested under an assembly, unless the assembly's serial is
/// empty, the drive sits in another enclosure, or it was already shown.
pub open spec fn drive_under_step(d: Drive, serial: Seq<char>, st: ExpandState) -> ExpandState {
    if serial.len() > 0 && d.enclosure_sn@ == serial && !st.printed_drives.contains(d.drive_sn@) {
        ExpandState {
            entries: st.entries.push(ReportEntry { item: ReportItem::Drive(d), depth: 1 }),
            printed_assemblies: st.printed_assemblies,
            printed_drives: st.printed_drives.push(d.drive_sn@),
            printed_tickets: st.printed_tickets,
        }
    } else {
        st
    }
}

/// Walk the whole drive list, showing the drives of one enclosure.
pub open spec fn drives_under(ds: Seq<Drive>, serial: Seq<char>, st: ExpandState) -> ExpandState
    decreases ds.len(),
{
    if ds.len() == 0 {
        st
    } else {
        drive_under_step(ds.last(), serial, drives_under(ds.drop_last(), serial, st))
    }
}

/// Show one matched assembly with its related drives and tickets nested
/// under it, unless its serial was already shown.
pub open spec fn assembly_step(
    a: Assembly,
    all_d: Seq<Drive>,
    all_t: Seq<ZendeskTicket>,
    st: ExpandState,
) -> ExpandState {
    if st.printed_assemblies.contains(a.serial_number@) {
        st
    } else {
        let st1 = ExpandState {
            entries: st.entries.push(ReportEntry { item: ReportItem::Assembly(a), depth: 0 }),
            printed_assemblies: st.printed_assemblies.push(a.serial_number@),
            printed_drives: st.printed_drives,
            printed_tickets: st.printed_tickets,
        };
        let st2 = drives_under(all_d, a.serial_number@, st1);
        tickets_fold(all_t, by_serial(a.serial_number@), 1, st2)
    }
}

/// Walk the matched assemblies in match order.
pub open spec fn assemblies_fold(
    ms: Seq<Assembly>,
    all_d: Seq<Drive>,
    all_t: Seq<ZendeskTicket>,
    st: ExpandState,
) -> ExpandState
    decreases ms.len(),
{
    if ms.len() == 0 {
        st
    } else {
        assembly_step(ms.last(), all_d, all_t, assemblies_fold(ms.drop_last(), all_d, all_t, st))
    }
}

/// Show one matched drive with its related tickets nested under it, unless
/// it was already shown under an assembly.
pub open spec fn drive_step(d: Drive, all_t: Seq<ZendeskTicket>, st: ExpandState) -> ExpandState {
    if st.printed_drives.contains(d.drive_sn@) {
        st
    } else {
        let st1 = ExpandState {
            entries: st.entries.push(ReportEntry { item: ReportItem::Drive(d), depth: 0 }),
            printed_assemblies: st.printed_assemblies,
            printed_drives: st.printed_drives.push(d.drive_sn@),
            printed_tickets: st.printed_tickets,
        };
        tickets_fold(all_t, by_drive(d.drive_sn@), 1, st1)
    }
}

/// Walk the matched drives in match order.
pub open spec fn drives_fold(ms: Seq<Drive>, all_t: Seq<ZendeskTicket>, st: ExpandState) -> ExpandState
    decreases ms.len(),
{
    if ms.len() == 0 {
        st
    } else {
        drive_step(ms.last(), all_t, drives_fold(ms.drop_last(), all_t, st))
    }
}

/// The whole expansion of one query: matched assemblies first, then the
/// matched drives not yet shown, then the matched tickets not yet shown.
pub open spec fn expand_spec(
    matched_a: Seq<Assembly>,
    matched_d: Seq<Drive>,
    matched_t: Seq<ZendeskTicket>,
    all_d: Seq<Drive>,
    all_t: Seq<ZendeskTicket>,
) -> ExpandState {
    let st1 = assemblies_fold(matched_a, all_d, all_t, initial_state());
    let st2 = drives_fold(matched_d, all_t, st1);
    tickets_fold(matched_t, every_ticket(), 0, st2)
}

/// The views of a list of owned strings.
pub open spec fn views_of(v: Seq<String>) -> Seq<Seq<char>> {
    v.map_values(|s: String| s@)
}

/// A list of machine integers as mathematical integers.
pub open spec fn ints_of(v: Seq<i64>) -> Seq<int> {
    v.map_values(|x: i64| x as int)
}

proof fn lemma_tickets_fold_step(
    ts: Seq<ZendeskTicket>,
    pred: spec_fn(ZendeskTicket) -> bool,
    depth: usize,
    st: ExpandState,
    i: int,
)
    requires
        0 <= i < ts.len(),
    ensures
        tickets_fold(ts.take(i + 1), pred, depth, st) == ticket_step(
            ts[i],
            pred,
            depth,
            tickets_fold(ts.take(i), pred, depth, st),
        ),
{
    assert(ts.take(i + 1).drop_last() =~= ts.take(i));
    assert(ts.take(i + 1).last() == ts[i]);
}

proof fn lemma_drives_under_step(ds: Seq<Drive>, serial: Seq<char>, st: ExpandState, i: int)
    requires
        0 <= i < ds.len(),
    ensures
        drives_under(ds.take(i + 1), serial, st) == drive_under_step(
            ds[i],
            serial,
            drives_under(ds.take(i), serial, st),
        ),
{
    assert(ds.take(i + 1).drop_last() =~= ds.take(i));
    assert(ds.take(i + 1).last() == ds[i]);
}

proof fn lemma_assemblies_fold_step(
    ms: Seq<Assembly>,
    all_d: Seq<Drive>,
    all_t: Seq<ZendeskTicket>,
    st: ExpandState,
    i: int,
)
    requires
        0 <= i < ms.len(),
    ensures
        assemblies_fold(ms.take(i + 1), all_d, all_t, st) == assembly_step(
            ms[i],
            all_d,
            all_t,
            assemblies_fold(ms.take(i), all_d, all_t, st),
        ),
{
    assert(ms.take(i + 1).drop_last() =~= ms.take(i));
    assert(ms.take(i + 1).last() == ms[i]);
}

proof fn lemma_drives_fold_step(ms: Seq<Drive>, all_t: Seq<ZendeskTicket>, st: ExpandState, i: int)
    requires
        0 <= i < ms.len(),
    ensures
        drives_fold(ms.take(i + 1), all_t, st) == drive_step(
            ms[i],
            all_t,
            drives_fold(ms.take(i), all_t, st),
        ),
{
    assert(ms.take(i + 1).drop_last() =~= ms.take(i));
    assert(ms.take(i + 1).last() == ms[i]);
}

/// Is this identity key already among the shown ones?
#[verifier::loop_isolation(false)]
pub(crate) fn vec_contains_str(v: &Vec<String>, s: &String) -> (r: bool)
    ensures
        r == views_of(v@).contains(s@),
{
    let n = v.len();
    let mut i: usize = 0;
    while i < n
        invariant
            0 <= i <= n,
            forall|j: int| 0 <= j < i ==> v@[j]@ != s@,
        decreases n - i,
    {
        if v[i] == *s {
            assert(views_of(v@)[i as int] == v@[i as int]@);
            return true;
        }
        i += 1;
    }
    assert forall|j: int| 0 <= j < views_of(v@).len() implies views_of(v@)[j] != s@ by {
        assert(views_of(v@)[j] == v@[j]@);
    }
    false
}

/// Is this numeric identity key already among the shown ones?
#[verifier::loop_isolation(false)]
fn vec_contains_i64(v: &Vec<i64>, x: i64) -> (r: bool)
    ensures
        r == ints_of(v@).contains(x as int),
{
    let n = v.len();
    let mut i: usize = 0;
    while i < n
        invariant
            0 <= i <= n,
            forall|j: int| 0 <= j < i ==> v@[j] != x,
        decreases n - i,
    {
        if v[i] == x {
            assert(ints_of(v@)[i as int] == v@[i as int] as int);
            return true;
        }
        i += 1;
    }
    assert forall|j: int| 0 <= j < ints_of(v@).len() implies ints_of(v@)[j] != x as int by {
        assert(ints_of(v@)[j] == v@[j] as int);
    }
    false
}

/// Append the unshown tickets of one assembly serial, nested one level.
#[verifier::loop_isolation(false)]
fn push_tickets_by_serial(
    all_t: &Vec<ZendeskTicket>,
    serial: &String,
    out: &mut Vec<ReportEntry>,
    pt: &mut Vec<i64>,
    Ghost(pa): Ghost<Seq<Seq<char>>>,
    Ghost(pd): Ghost<Seq<Seq<char>>>,
)
    ensures
        ({
            let st0 = ExpandState {
                entries: old(out)@,
                printed_assemblies: pa,
                printed_drives: pd,
                printed_tickets: ints_of(old(pt)@),
            };
            let st1 = tickets_fold(all_t@, by_serial(serial@), 1, st0);
            final(out)@ == st1.entries && ints_of(final(pt)@) == st1.printed_tickets
                && st1.printed_assemblies == pa && st1.printed_drives == pd
        }),
{
    let ghost st0 = ExpandState {
        entries: out@,
        printed_assemblies: pa,
        printed_drives: pd,
        printed_tickets: ints_of(pt@),
    };
    let ghost pred = by_serial(serial@);
    proof {
        assert(all_t@.take(0) =~= Seq::<ZendeskTicket>::empty());
    }
    let n = all_t.len();
    let mut i: usize = 0;
    while i < n
        invariant
            0 <= i <= n,
            out@ == tickets_fold(all_t@.take(i as int), pred, 1, st0).entries,
            ints_of(pt@) == tickets_fold(all_t@.take(i as int), pred, 1, st0).printed_tickets,
            tickets_fold(all_t@.take(i as int), pred, 1, st0).printed_assemblies == pa,
            tickets_fold(all_t@.take(i as int), pred, 1, st0).printed_drives == pd,
        decreases n - i,
    {
        proof {
            lemma_tickets_fold_step(all_t@, pred, 1, st0, i as int);
        }
        let t = &all_t[i];
        if !serial.as_str().is_empty() && t.serial == *serial {
            if !vec_contains_i64(pt, t.rma) {
                out.push(ReportEntry { item: ReportItem::Ticket(t.clone()), depth: 1 });
                pt.push(t.rma);
                proof {
                    assert(ints_of(pt@) =~= tickets_fold(
                        all_t@.take(i as int),
                        pred,
                        1,
                        st0,
                    ).printed_tickets.push(t.rma as int));
                }
            }
        }
        i += 1;
    }
    proof {
        assert(all_t@.take(n as int) =~= all_t@);
    }
}

/// Append the unshown tickets of one drive serial, nested one level.
#[verifier::loop_isolation(false)]
fn push_tickets_by_drive(
    all_t: &Vec<ZendeskTicket>,
    drive_sn: &String,
    out: &mut Vec<ReportEntry>,
    pt: &mut Vec<i64>,
    Ghost(pa): Ghost<Seq<Seq<char>>>,
    Ghost(pd): Ghost<Seq<Seq<char>>>,
)
    ensures
        ({
            let st0 = ExpandState {
                entries: old(out)@,
                printed_assemblies: pa,
                printed_drives: pd,
                printed_tickets: ints_of(old(pt)@),
            };
            let st1 = tickets_fold(all_t@, by_drive(drive_sn@), 1, st0);
            final(out)@ == st1.entries && ints_of(final(pt)@) == st1.printed_tickets
                && st1.printed_assemblies == pa && st1.printed_drives == pd
        }),
{
    let ghost st0 = ExpandState {
        entries: out@,
        printed_assemblies: pa,
        printed_drives: pd,
        printed_tickets: ints_of(pt@),
    };
    let ghost pred = by_drive(drive_sn@);
    proof {
        assert(all_t@.take(0) =~= Seq::<ZendeskTicket>::empty());
    }
    let n = all_t.len();
    let mut i: usize = 0;
    while i < n
        invariant
            0 <= i <= n,
            out@ == tickets_fold(all_t@.take(i as int), pred, 1, st0).entries,
            ints_of(pt@) == tickets_fold(all_t@.take(i as int), pred, 1, st0).printed_tickets,
            tickets_fold(all_t@.take(i as int), pred, 1, st0).printed_assemblies == pa,
            tickets_fold(all_t@.take(i as int), pred, 1, st0).printed_drives == pd,
        decreases n - i,
    {
        proof {
            lemma_tickets_fold_step(all_t@, pred, 1, st0, i as int);
        }
        let t = &all_t[i];
        if !drive_sn.as_str().is_empty() && t.drive == *drive_sn {
            if !vec_contains_i64(pt, t.rma) {
                out.push(ReportEntry { item: ReportItem::Ticket(t.clone()), depth: 1 });
                pt.push(t.rma);
                proof {
                    assert(ints_of(pt@) =~= tickets_fold(
                        all_t@.take(i as int),
                        pred,
                        1,
                        st0,
                    ).printed_tickets.push(t.rma as int));
                }
            }
        }
        i += 1;
    }
    proof {
        assert(all_t@.take(n as int) =~= all_t@);
    }
}

/// Append the unshown drives of one enclosure serial, nested one level.
#[verifier::loop_isolation(false)]
fn push_drives_under(
    all_d: &Vec<Drive>,
    serial: &String,
    out: &mut Vec<ReportEntry>,
    pd: &mut Vec<String>,
    Ghost(pa): Ghost<Seq<Seq<char>>>,
    Ghost(pt): Ghost<Seq<int>>,
)
    ensures
        ({
            let st0 = ExpandState {
                entries: old(out)@,
                printed_assemblies: pa,
                printed_drives: views_of(old(pd)@),
                printed_tickets: pt,
            };
            let st1 = drives_under(all_d@, serial@, st0);
            final(out)@ == st1.entries && views_of(final(pd)@) == st1.printed_drives
                && st1.printed_assemblies == pa && st1.printed_tickets == pt
        }),
{
    let ghost st0 = ExpandState {
        entries: out@,
        printed_assemblies: pa,
        printed_drives: views_of(pd@),
        printed_tickets: pt,
    };
    proof {
        assert(all_d@.take(0) =~= Seq::<Drive>::empty());
    }
    let n = all_d.len();
    let mut i: usize = 0;
    while i < n
        invariant
            0 <= i <= n,
            out@ == drives_under(all_d@.take(i as int), serial@, st0).entries,
            views_of(pd@) == drives_under(all_d@.take(i as int), serial@, st0).printed_drives,
            drives_under(all_d@.take(i as int), serial@, st0).printed_assemblies == pa,
            drives_under(all_d@.take(i as int), serial@, st0).printed_tickets == pt,
        decreases n - i,
    {
        proof {
            lemma_drives_under_step(all_d@, serial@, st0, i as int);
        }
        let d = &all_d[i];
        if !serial.as_str().is_empty() && d.enclosure_sn == *serial {
            if !vec_contains_str(pd, &d.drive_sn) {
                out.push(ReportEntry { item: ReportItem::Drive(d.clone()), depth: 1 });
                pd.push(d.drive_sn.clone());
                proof {
                    assert(views_of(pd@) =~= drives_under(
                        all_d@.take(i as int),
                        serial@,
                        st0,
                    ).printed_drives.push(d.drive_sn@));
                }
            }
        }
        i += 1;
    }
    proof {
        assert(all_d@.take(n as int) =~= all_d@);
    }
}

/// Expand one query's matched anchors into the full ordered report.
#[verifier::loop_isolation(false)]
pub fn expand(
    matched_a: &Vec<Assembly>,
    matched_d: &Vec<Drive>,
    matched_t: &Vec<ZendeskTicket>,
    drives: &DrivesRoot,
    zendesk: &ZendeskRoot,
) -> (r: Vec<ReportEntry>)
    ensures
        r@ == expand_spec(
            matched_a@,
            matched_d@,
            matched_t@,
            drives.drive@,
            zendesk.zendesk_ticket@,
        ).entries,
{
    let mut out: Vec<ReportEntry> = Vec::new();
    let mut pa: Vec<String> = Vec::new();
    let mut pd: Vec<String> = Vec::new();
    let mut pt: Vec<i64> = Vec::new();
    let ghost all_d = drives.drive@;
    let ghost all_t = zendesk.zendesk_ticket@;

    proof {
        assert(views_of(Seq::<String>::empty()) =~= Seq::<Seq<char>>::empty());
        assert(ints_of(Seq::<i64>::empty()) =~= Seq::<int>::empty());
        assert(matched_a@.take(0) =~= Seq::<Assembly>::empty());
    }

    // matched assemblies, each with its related drives and tickets
    let na = matched_a.len();
    let mut i: usize = 0;
    while i < na
        invariant
            0 <= i <= na,
            ({
                let st = assemblies_fold(matched_a@.take(i as int), all_d, all_t, initial_state());
                out@ == st.entries && views_of(pa@) == st.printed_assemblies && views_of(pd@)
                    == st.printed_drives && ints_of(pt@) == st.printed_tickets
            }),
        decreases na - i,
    {
        proof {
            lemma_assemblies_fold_step(matched_a@, all_d, all_t, initial_state(), i as int);
        }
        let ghost st_before = assemblies_fold(
            matched_a@.take(i as int),
            all_d,
            all_t,
            initial_state(),
        );
        let a = &matched_a[i];
        if !vec_contains_str(&pa, &a.serial_number) {
            out.push(ReportEntry { item: ReportItem::Assembly(a.clone()), depth: 0 });
            pa.push(a.serial_number.clone());
            proof {
                assert(views_of(pa@) =~= st_before.printed_assemblies.push(a.serial_number@));
            }
            push_drives_under(
                &drives.drive,
                &a.serial_number,
                &mut out,
                &mut pd,
                Ghost(views_of(pa@)),
                Ghost(ints_of(pt@)),
            );
            push_tickets_by_serial(
                &zendesk.zendesk_ticket,
                &a.serial_number,
                &mut out,
                &mut pt,
                Ghost(views_of(pa@)),
                Ghost(views_of(pd@)),
            );
        }
        i += 1;
    }
    let ghost st1 = assemblies_fold(matched_a@, all_d, all_t, initial_state());
    proof {
        assert(matched_a@.take(na as int) =~= matched_a@);
        assert(matched_d@.take(0) =~= Seq::<Drive>::empty());
    }

    // matched drives not yet shown, each with its related tickets
    let nd = matched_d.len();
    let mut i: usize = 0;
    while i < nd
        invariant
            0 <= i <= nd,
            ({
                let st = drives_fold(matched_d@.take(i as int), all_t, st1);
                out@ == st.entries && views_of(pa@) == st.printed_assemblies && views_of(pd@)
                    == st.printed_drives && ints_of(pt@) == st.printed_tickets
            }),
        decreases nd - i,
    {
        proof {
            lemma_drives_fold_step(matched_d@, all_t, st1, i as int);
        }
        let ghost st_before = drives_fold(matched_d@.take(i as int), all_t, st1);
        let d = &matched_d[i];
        if !vec_contains_str(&pd, &d.drive_sn) {
            out.push(ReportEntry { item: ReportItem::Drive(d.clone()), depth: 0 });
            pd.push(d.drive_sn.clone());
            proof {
                assert(views_of(pd@) =~= st_before.printed_drives.push(d.drive_sn@));
            }
            push_tickets_by_drive(
                &zendesk.zendesk_ticket,
                &d.drive_sn,
                &mut out,
                &mut pt,
                Ghost(views_of(pa@)),
                Ghost(views_of(pd@)),
            );
        }
        i += 1;
    }
    let ghost st2 = drives_fold(matched_d@, all_t, st1);
    proof {
        assert(matched_d@.take(nd as int) =~= matched_d@);
        assert(matched_t@.take(0) =~= Seq::<ZendeskTicket>::empty());
    }

    // matched tickets not yet shown
    let nt = matched_t.len();
    let mut i: usize = 0;
    while i < nt
        invariant
            0 <= i <= nt,
            ({
                let st = tickets_fold(matched_t@.take(i as int), every_ticket(), 0, st2);
                out@ == st.entries && views_of(pa@) == st.printed_assemblies && views_of(pd@)
                    == st.printed_drives && ints_of(pt@) == st.printed_tickets
            }),
        decreases nt - i,
    {
        proof {
            lemma_tickets_fold_step(matched_t@, every_ticket(), 0, st2, i as int);
        }
        let ghost st_before = tickets_fold(matched_t@.take(i as int), every_ticket(), 0, st2);
        let t = &matched_t[i];
        if !vec_contains_i64(&pt, t.rma) {
            out.push(ReportEntry { item: ReportItem::Ticket(t.clone()), depth: 0 });
            pt.push(t.rma);
            proof {
                assert(ints_of(pt@) =~= st_before.printed_tickets.push(t.rma as int));
            }
        }
        i += 1;
    }
    proof {
        assert(matched_t@.take(nt as int) =~= matched_t@);
    }
    out
}

/// The serial numbers of the assembly entries of a report, in report order.
pub open spec fn assembly_serials(entries: Seq<ReportEntry>) -> Seq<Seq<char>>
    decreases entries.len(),
{
    if entries.len() == 0 {
        Seq::empty()
    } else {
        let rest = assembly_serials(entries.drop_last());
        if entries.last().item is Assembly {
            rest.push(entries.last().item->Assembly_0.serial_number@)
        } else {
            rest
        }
    }
}

/// The drive serials of the drive entries of a report, in report order.
pub open spec fn drive_serials(entries: Seq<ReportEntry>) -> Seq<Seq<char>>
    decreases entries.len(),
{
    if entries.len() == 0 {
        Seq::empty()
    } else {
        let rest = drive_serials(entries.drop_last());
        if entries.last().item is Drive {
            rest.push(entries.last().item->Drive_0.drive_sn@)
        } else {
            rest
        }
    }
}

/// The RMA numbers of the ticket entries of a report, in report order.
pub open spec fn ticket_rmas(entries: Seq<ReportEntry>) -> Seq<int>
    decreases entries.len(),
{
    if entries.len() == 0 {
        Seq::empty()
    } else {
        let rest = ticket_rmas(entries.drop_last());
        if entries.last().item is Ticket {
            rest.push(entries.last().item->Ticket_0.rma as int)
        } else {
            rest
        }
    }
}

/// No element of the sequence repeats.
pub open spec fn distinct_seq<A>(s: Seq<A>) -> bool {
    forall|i: int, j: int| 0 <= i < j < s.len() ==> s[i] != s[j]
}

/// The shown-key lists are exactly the keys of the report, in order.
pub open spec fn keyed(st: ExpandState) -> bool {
    assembly_serials(st.entries) == st.printed_assemblies && drive_serials(st.entries)
        == st.printed_drives && ticket_rmas(st.entries) == st.printed_tickets
}

/// The invariant the expansion maintains: keys track the report and no key
/// list repeats a key.
pub open spec fn deduped(st: ExpandState) -> bool {
    keyed(st) && distinct_seq(st.printed_assemblies) && distinct_seq(st.printed_drives)
        && distinct_seq(st.printed_tickets)
}

proof fn lemma_keys_push(entries: Seq<ReportEntry>, e: ReportEntry)
    ensures
        assembly_serials(entries.push(e)) == if e.item is Assembly {
            assembly_serials(entries).push(e.item->Assembly_0.serial_number@)
        } else {
            assembly_serials(entries)
        },
        drive_serials(entries.push(e)) == if e.item is Drive {
            drive_serials(entries).push(e.item->Drive_0.drive_sn@)
        } else {
            drive_serials(entries)
        },
        ticket_rmas(entries.push(e)) == if e.item is Ticket {
            ticket_rmas(entries).push(e.item->Ticket_0.rma as int)
        } else {
            ticket_rmas(entries)
        },
{
    assert(entries.push(e).drop_last() =~= entries);
    assert(entries.push(e).last() == e);
}

proof fn lemma_distinct_push<A>(s: Seq<A>, x: A)
    requires
        distinct_seq(s),
        !s.contains(x),
    ensures
        distinct_seq(s.push(x)),
{
    assert forall|i: int, j: int| 0 <= i < j < s.push(x).len() implies s.push(x)[i] != s.push(x)[j] by {
        if j == s.len() {
            assert(s.push(x)[i] == s[i]);
            assert(s[i] != x);
        }
    }
}

proof fn lemma_ticket_step_deduped(
    t: ZendeskTicket,
    pred: spec_fn(ZendeskTicket) -> bool,
    depth: usize,
    st: ExpandState,
)
    requires
        deduped(st),
    ensures
        deduped(ticket_step(t, pred, depth, st)),
{
    if pred(t) && !st.printed_tickets.contains(t.rma as int) {
        lemma_keys_push(st.entries, ReportEntry { item: ReportItem::Ticket(t), depth });
        lemma_distinct_push(st.printed_tickets, t.rma as int);
    }
}

proof fn lemma_tickets_fold_deduped(
    ts: Seq<ZendeskTicket>,
    pred: spec_fn(ZendeskTicket) -> bool,
    depth: usize,
    st: ExpandState,
)
    requires
        deduped(st),
    ensures
        deduped(tickets_fold(ts, pred, depth, st)),
    decreases ts.len(),
{
    if ts.len() > 0 {
        lemma_tickets_fold_deduped(ts.drop_last(), pred, depth, st);
        lemma_ticket_step_deduped(ts.last(), pred, depth, tickets_fold(ts.drop_last(), pred, depth, st));
    }
}

proof fn lemma_drive_under_step_deduped(d: Drive, serial: Seq<char>, st: ExpandState)
    requires
        deduped(st),
    ensures
        deduped(drive_under_step(d, serial, st)),
{
    if serial.len() > 0 && d.enclosure_sn@ == serial && !st.printed_drives.contains(d.drive_sn@) {
        lemma_keys_push(st.entries, ReportEntry { item: ReportItem::Drive(d), depth: 1 });
        lemma_distinct_push(st.printed_drives, d.drive_sn@);
    }
}

proof fn lemma_drives_under_deduped(ds: Seq<Drive>, serial: Seq<char>, st: ExpandState)
    requires
        deduped(st),
    ensures
        deduped(drives_under(ds, serial, st)),
    decreases ds.len(),
{
    if ds.len() > 0 {
        lemma_drives_under_deduped(ds.drop_last(), serial, st);
        lemma_drive_under_step_deduped(ds.last(), serial, drives_under(ds.drop_last(), serial, st));
    }
}

proof fn lemma_assembly_step_deduped(
    a: Assembly,
    all_d: Seq<Drive>,
    all_t: Seq<ZendeskTicket>,
    st: ExpandState,
)
    requires
        deduped(st),
    ensures
        deduped(assembly_step(a, all_d, all_t, st)),
{
    if !st.printed_assemblies.contains(a.serial_number@) {
        lemma_keys_push(st.entries, ReportEntry { item: ReportItem::Assembly(a), depth: 0 });
        lemma_distinct_push(st.printed_assemblies, a.serial_number@);
        let st1 = ExpandState {
            entries: st.entries.push(ReportEntry { item: ReportItem::Assembly(a), depth: 0 }),
            printed_assemblies: st.printed_assemblies.push(a.serial_number@),
            printed_drives: st.printed_drives,
            printed_tickets: st.printed_tickets,
        };
        lemma_drives_under_deduped(all_d, a.serial_number@, st1);
        lemma_tickets_fold_deduped(all_t, by_serial(a.serial_number@), 1, drives_under(all_d, a.serial_number@, st1));
    }
}

proof fn lemma_assemblies_fold_deduped(
    ms: Seq<Assembly>,
    all_d: Seq<Drive>,
    all_t: Seq<ZendeskTicket>,
    st: ExpandState,
)
    requires
        deduped(st),
    ensures
        deduped(assemblies_fold(ms, all_d, all_t, st)),
    decreases ms.len(),
{
    if ms.len() > 0 {
        lemma_assemblies_fold_deduped(ms.drop_last(), all_d, all_t, st);
        lemma_assembly_step_deduped(ms.last(), all_d, all_t, assemblies_fold(ms.drop_last(), all_d, all_t, st));
    }
}

proof fn lemma_drive_step_deduped(d: Drive, all_t: Seq<ZendeskTicket>, st: ExpandState)
    requires
        deduped(st),
    ensures
        deduped(drive_step(d, all_t, st)),
{
    if !st.printed_drives.contains(d.drive_sn@) {
        lemma_keys_push(st.entries, ReportEntry { item: ReportItem::Drive(d), depth: 0 });
        lemma_distinct_push(st.printed_drives, d.drive_sn@);
        let st1 = ExpandState {
            entries: st.entries.push(ReportEntry { item: ReportItem::Drive(d), depth: 0 }),
            printed_assemblies: st.printed_assemblies,
            printed_drives: st.printed_drives.push(d.drive_sn@),
            printed_tickets: st.printed_tickets,
        };
        lemma_tickets_fold_deduped(all_t, by_drive(d.drive_sn@), 1, st1);
    }
}

proof fn lemma_drives_fold_deduped(ms: Seq<Drive>, all_t: Seq<ZendeskTicket>, st: ExpandState)
    requires
        deduped(st),
    ensures
        deduped(drives_fold(ms, all_t, st)),
    decreases ms.len(),
{
    if ms.len() > 0 {
        lemma_drives_fold_deduped(ms.drop_last(), all_t, st);
        lemma_drive_step_deduped(ms.last(), all_t, drives_fold(ms.drop_last(), all_t, st));
    }
}

/// Within one correlation expansion no identity key appears twice: no two
/// assembly entries share a serial number, no two drive entries share a
/// drive serial, and no two ticket entries share an RMA number, however
/// many relationship paths lead to a record.
pub proof fn lemma_expand_no_duplicate_keys(
    matched_a: Seq<Assembly>,
    matched_d: Seq<Drive>,
    matched_t: Seq<ZendeskTicket>,
    all_d: Seq<Drive>,
    all_t: Seq<ZendeskTicket>,
)
    ensures
        ({
            let report = expand_spec(matched_a, matched_d, matched_t, all_d, all_t).entries;
            distinct_seq(assembly_serials(report)) && distinct_seq(drive_serials(report))
                && distinct_seq(ticket_rmas(report))
        }),
{
    assert(deduped(initial_state()));
    lemma_assemblies_fold_deduped(matched_a, all_d, all_t, initial_state());
    lemma_drives_fold_deduped(matched_d, all_t, assemblies_fold(matched_a, all_d, all_t, initial_state()));
    lemma_tickets_fold_deduped(
        matched_t,
        every_ticket(),
        0,
        drives_fold(matched_d, all_t, assemblies_fold(matched_a, all_d, all_t, initial_state())),
    );
}

} // verus!
