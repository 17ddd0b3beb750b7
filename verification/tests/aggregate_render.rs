use glyphdb::aggregate::{
    assign_colors, assign_pastel_colors, build_summary, count_distinct, count_trimmed,
    get_parent_manufacturer_name, sort_by_count_desc, top_n,
};
use glyphdb::model::{AssembliesRoot, Assembly, Drive, DrivesRoot};
use glyphdb::render::{render_assembly, render_ticket};
use glyphdb::model::ZendeskTicket;
use glyphdb::snapshot::{Root, ASM};

fn owned(values: &[&str]) -> Vec<String> {
    values.iter().map(|v| v.to_string()).collect()
}

fn builder_assembly(built_by: &str) -> Assembly {
    Assembly {
        serial_number: String::new(),
        built_date: 0,
        built_by: built_by.to_string(),
        description: String::new(),
        sales_order: String::new(),
    }
}

fn manufacturer_drive(manufacturer: &str, enclosure: &str) -> Drive {
    Drive {
        enclosure_sn: enclosure.to_string(),
        drive_sn: String::new(),
        drive_manufacturer: manufacturer.to_string(),
        model: String::new(),
        part_number: String::new(),
    }
}

#[test]
fn counting_trims_and_keeps_first_occurrence_order() {
    let counts = count_trimmed(&owned(&["  Seagate ", "WD", "Seagate", "WD", "Seagate"]));
    assert_eq!(counts.len(), 2);
    assert_eq!(counts[0], ("Seagate".to_string(), 3));
    assert_eq!(counts[1], ("WD".to_string(), 2));
}

#[test]
fn counting_counts_empty_values_like_any_other() {
    let counts = count_trimmed(&owned(&["", "  ", "x"]));
    assert_eq!(counts[0], (String::new(), 2));
    assert_eq!(counts[1], ("x".to_string(), 1));
}

#[test]
fn sorting_is_stable_and_descending() {
    let counts = vec![
        ("low".to_string(), 1usize),
        ("first-tie".to_string(), 2usize),
        ("second-tie".to_string(), 2usize),
        ("high".to_string(), 5usize),
    ];
    let sorted = sort_by_count_desc(&counts);
    assert_eq!(sorted[0], ("high".to_string(), 5));
    assert_eq!(sorted[1], ("first-tie".to_string(), 2));
    assert_eq!(sorted[2], ("second-tie".to_string(), 2));
    assert_eq!(sorted[3], ("low".to_string(), 1));
}

#[test]
fn top_n_example_three_acme_builders() {
    let collection = vec![
        builder_assembly("ACME"),
        builder_assembly("ACME"),
        builder_assembly("Other"),
        builder_assembly("ACME"),
    ];
    let values: Vec<String> = collection.iter().map(|a| a.built_by.clone()).collect();
    let ranked = top_n(&count_trimmed(&values), 1);
    assert_eq!(ranked, vec![("ACME".to_string(), 3)]);
}

#[test]
fn top_n_larger_than_the_table_returns_everything() {
    let ranked = top_n(&count_trimmed(&owned(&["a", "b"])), 15);
    assert_eq!(ranked.len(), 2);
}

#[test]
fn parent_is_the_reference_prefix_or_the_name_itself() {
    let refs = owned(&["Seagate", "WD"]);
    assert_eq!(get_parent_manufacturer_name("Seagate-OEM", &refs), "Seagate");
    assert_eq!(get_parent_manufacturer_name("WD", &refs), "WD");
    assert_eq!(get_parent_manufacturer_name("Toshiba", &refs), "Toshiba");
}

#[test]
fn parent_picks_the_longest_matching_prefix() {
    let refs = owned(&["Sea", "Seagate"]);
    assert_eq!(get_parent_manufacturer_name("Seagate-OEM", &refs), "Seagate");
    let refs_reversed = owned(&["Seagate", "Sea"]);
    assert_eq!(get_parent_manufacturer_name("Seagate-OEM", &refs_reversed), "Seagate");
}

#[test]
fn colour_indices_cycle_through_the_palettes() {
    let names: Vec<String> = (0..13).map(|i| format!("name-{}", i)).collect();
    let colors = assign_colors(&names);
    assert_eq!(colors[0].1, 0);
    assert_eq!(colors[11].1, 11);
    assert_eq!(colors[12].1, 0);
    let pastel = assign_pastel_colors(&names);
    assert_eq!(pastel[5].1, 5);
    assert_eq!(pastel[6].1, 0);
}

#[test]
fn distinct_count_ignores_duplicates_only() {
    assert_eq!(count_distinct(&owned(&["e1", "e2", "e1", "e3", "e2"])), 3);
    assert_eq!(count_distinct(&owned(&[])), 0);
}

#[test]
fn summary_combines_counts_ranks_and_parents() {
    let assemblies = AssembliesRoot {
        asms: vec![
            builder_assembly("ACME"),
            builder_assembly("ACME"),
            builder_assembly("Initech"),
        ],
    };
    let drives = DrivesRoot {
        drive: vec![
            manufacturer_drive("Seagate", "E1"),
            manufacturer_drive("Seagate", "E1"),
            manufacturer_drive("Seagate-OEM", "E2"),
            manufacturer_drive("WD", "E3"),
        ],
    };
    let summary = build_summary(&assemblies, &drives);
    assert_eq!(summary.unique_manufacturers, 3);
    assert_eq!(summary.unique_builders, 2);
    assert_eq!(summary.unique_enclosures, 3);
    assert_eq!(summary.top_manufacturers[0], ("Seagate".to_string(), 2));
    assert_eq!(summary.top_builders[0], ("ACME".to_string(), 2));
    // every manufacturer is in the top-10 reference set here, so the
    // variant rolls up under its prefix
    let parent_of_oem = summary
        .manufacturer_parents
        .iter()
        .find(|(name, _)| name == "Seagate-OEM")
        .map(|(_, parent)| parent.clone());
    assert_eq!(parent_of_oem, Some("Seagate".to_string()));
    let parent_of_wd = summary
        .manufacturer_parents
        .iter()
        .find(|(name, _)| name == "WD")
        .map(|(_, parent)| parent.clone());
    assert_eq!(parent_of_wd, Some("WD".to_string()));
    assert_eq!(summary.parent_colors.len(), 3);
    assert_eq!(summary.builder_colors.len(), 2);
}

#[test]
fn rendering_suppresses_empty_fields() {
    let a = Assembly {
        serial_number: "SN-9".to_string(),
        built_date: 0,
        built_by: String::new(),
        description: "spare".to_string(),
        sales_order: String::new(),
    };
    let lines = render_assembly(&a);
    assert_eq!(
        lines,
        vec![
            ("Serial Number:".to_string(), "SN-9".to_string()),
            ("Description:".to_string(), "spare".to_string()),
        ]
    );
}

#[test]
fn rendering_shows_rma_as_decimal_and_hides_zero() {
    let t = ZendeskTicket {
        rma: 55,
        serial: String::new(),
        drive: String::new(),
        old_diagnosis: String::new(),
        new_diagnosis: String::new(),
    };
    let lines = render_ticket(&t);
    assert_eq!(lines, vec![("RMA:".to_string(), "55".to_string())]);
    let absent = ZendeskTicket { rma: 0, ..t };
    assert_eq!(render_ticket(&absent), vec![]);
}

#[test]
fn snapshot_records_convert_field_for_field() {
    let root = Root {
        ASM: vec![ASM {
            serial_number: "SN-1".to_string(),
            built_date: 42,
            built_by: "ACME".to_string(),
            description: "unit".to_string(),
            sales_order: "SO-1".to_string(),
        }],
    };
    let converted = root.into_assemblies();
    assert_eq!(converted.asms.len(), 1);
    let a = &converted.asms[0];
    assert_eq!(a.serial_number, "SN-1");
    assert_eq!(a.built_date, 42);
    assert_eq!(a.built_by, "ACME");
    assert_eq!(a.description, "unit");
    assert_eq!(a.sales_order, "SO-1");
}
