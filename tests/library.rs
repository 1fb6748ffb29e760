use chiptool::canon::canonicalize;
use chiptool::ir::{Block, BlockItem, Enum, EnumVariant, Field, FieldSet, ItemTarget, IR};
use chiptool::merge::{check_mergeable_enums, notes_of, CheckLevel, MergeEnums, TransformError, Mismatch};
use chiptool::pac::{Clock, Inten, Interrupt};
use chiptool::pattern::{group_by_destination, Pattern};
use chiptool::rename::rename_enums;
use chiptool::transform::{description_cleanups, description_trim, run_all, PipelineError, Transform};
use chiptool::validate::{find_duplicates, find_overlaps, remove_unused_enums, validate, Options, Violation};

fn s(x: &str) -> String {
    x.to_string()
}

fn variant(name: &str, value: u64, desc: Option<&str>) -> EnumVariant {
    EnumVariant { name: s(name), value, description: desc.map(s) }
}

fn enumm(name: &str, bit_size: u64, variants: Vec<EnumVariant>) -> Enum {
    Enum { name: s(name), bit_size, variants, description: None }
}

fn field(name: &str, bit_offset: u64, bit_size: u64, e: Option<&str>) -> Field {
    Field { name: s(name), bit_offset, bit_size, enumm: e.map(s), description: None }
}

fn fieldset(name: &str, fields: Vec<Field>) -> FieldSet {
    FieldSet { name: s(name), bit_size: 32, fields, description: None }
}

fn item(name: &str, byte_offset: u64, byte_size: u64, fs: Option<&str>) -> BlockItem {
    BlockItem {
        name: s(name),
        byte_offset,
        byte_size,
        target: ItemTarget::Register(fs.map(s)),
        description: None,
    }
}

fn two_state() -> Vec<EnumVariant> {
    vec![variant("OFF", 0, Some("Off")), variant("ON", 1, Some("On"))]
}

fn merge(from: &str, to: &str, check: CheckLevel, skip: bool) -> MergeEnums {
    MergeEnums { from: s(from), to: s(to), check, skip_unmergeable: skip, keep_desc: None }
}

fn sample_ir() -> IR {
    IR {
        blocks: vec![Block {
            name: s("Uart"),
            items: vec![item("CTRL", 0, 4, Some("Ctrl")), item("STAT", 4, 4, Some("Stat"))],
            description: None,
        }],
        fieldsets: vec![
            fieldset("Ctrl", vec![field("EN", 0, 1, Some("CtrlEn")), field("MODE", 1, 1, Some("CtrlMode"))]),
            fieldset("Stat", vec![field("BUSY", 0, 1, Some("StatBusy"))]),
        ],
        enums: vec![
            enumm("CtrlEn", 1, two_state()),
            enumm("CtrlMode", 1, two_state()),
            enumm("StatBusy", 1, two_state()),
        ],
    }
}

#[test]
fn merge_redirects_all_references() {
    let mut ir = sample_ir();
    let m = merge("Ctrl(En|Mode)", "Ctrl", CheckLevel::Strict, false);
    assert_eq!(m.run(&mut ir), Ok(()));
    let names: Vec<&str> = ir.enums.iter().map(|e| e.name.as_str()).collect();
    assert_eq!(names, vec!["StatBusy", "Ctrl"]);
    assert_eq!(ir.fieldsets[0].fields[0].enumm, Some(s("Ctrl")));
    assert_eq!(ir.fieldsets[0].fields[1].enumm, Some(s("Ctrl")));
    assert_eq!(ir.fieldsets[1].fields[0].enumm, Some(s("StatBusy")));
    assert_eq!(ir.enums[1].variants, two_state());
}

#[test]
fn merge_with_capture_groups() {
    let mut ir = sample_ir();
    let m = merge("(Ctrl|Stat)[A-Z][a-z]+", "${1}Flag", CheckLevel::Relaxed, false);
    assert_eq!(m.run(&mut ir), Ok(()));
    let names: Vec<&str> = ir.enums.iter().map(|e| e.name.as_str()).collect();
    assert_eq!(names, vec!["CtrlFlag", "StatFlag"]);
    assert_eq!(ir.fieldsets[1].fields[0].enumm, Some(s("StatFlag")));
}

#[test]
fn failed_strict_merge_leaves_ir_unchanged() {
    let mut ir = sample_ir();
    ir.enums[1].variants[1].description = Some(s("Enabled"));
    let before = ir.clone();
    let m = merge("Ctrl(En|Mode)|StatBusy", "Merged", CheckLevel::Strict, false);
    let r = m.run(&mut ir);
    assert_eq!(
        r,
        Err(TransformError::Incompatible {
            first: s("CtrlEn"),
            second: s("CtrlMode"),
            cause: Mismatch::Variant(1),
        })
    );
    assert_eq!(ir, before);
}

#[test]
fn skipped_merge_leaves_ir_unchanged() {
    let mut ir = sample_ir();
    ir.enums[1].bit_size = 2;
    let before = ir.clone();
    let m = merge("Ctrl(En|Mode)", "Ctrl", CheckLevel::Relaxed, true);
    assert_eq!(m.run(&mut ir), Ok(()));
    assert_eq!(ir, before);
}

#[test]
fn relaxed_merge_ignores_descriptions() {
    let mut ir = sample_ir();
    ir.enums[1].variants[1].description = Some(s("Enabled"));
    let m = merge("Ctrl(En|Mode)", "Ctrl", CheckLevel::Relaxed, false);
    assert_eq!(m.run(&mut ir), Ok(()));
    assert_eq!(ir.enums.len(), 2);
}

#[test]
fn merge_into_taken_name_fails() {
    let mut ir = sample_ir();
    let before = ir.clone();
    let m = merge("Ctrl(En|Mode)", "StatBusy", CheckLevel::Strict, false);
    assert_eq!(m.run(&mut ir), Err(TransformError::DestinationTaken { name: s("StatBusy") }));
    assert_eq!(ir, before);
}

#[test]
fn bad_pattern_is_reported() {
    let mut ir = sample_ir();
    let before = ir.clone();
    let m = merge("Ctrl(", "X", CheckLevel::Strict, false);
    assert_eq!(m.run(&mut ir), Err(TransformError::BadPattern { pattern: s("Ctrl(") }));
    assert_eq!(ir, before);
}

#[test]
fn mergeability_names_first_difference() {
    let a = enumm("A", 1, two_state());
    let mut b = enumm("B", 1, two_state());
    assert_eq!(check_mergeable_enums(&a, &b, CheckLevel::Strict), Ok(()));
    b.variants[0].description = None;
    assert_eq!(check_mergeable_enums(&a, &b, CheckLevel::Strict), Err(Mismatch::Variant(0)));
    assert_eq!(check_mergeable_enums(&a, &b, CheckLevel::Relaxed), Ok(()));
    b.bit_size = 2;
    assert_eq!(check_mergeable_enums(&a, &b, CheckLevel::Relaxed), Err(Mismatch::BitSize));
    assert_eq!(check_mergeable_enums(&a, &b, CheckLevel::NoCheck), Ok(()));
    let c = enumm("C", 1, vec![variant("OFF", 0, Some("Off"))]);
    assert_eq!(check_mergeable_enums(&a, &c, CheckLevel::Relaxed), Err(Mismatch::VariantCount));
}

#[test]
fn pattern_destination_expands_groups() {
    let p = Pattern::whole_name(&s("([A-Z]+)_(\\d+)")).unwrap();
    assert_eq!(p.destination(&s("UART_1"), &s("${1}x")), Some(s("UARTx")));
    assert_eq!(p.destination(&s("uart_1"), &s("${1}x")), None);
    assert_eq!(p.destination(&s("XUART_1Y"), &s("${1}x")), None);
    assert!(Pattern::whole_name(&s("[")).is_none());
    let q = Pattern::new(&s("[ \\n]+")).unwrap();
    assert_eq!(q.replace_all(&s("a \n b\nc"), &s(" ")), s("a b c"));
    assert_eq!(q.destination(&s("x y"), &s("_")), Some(s("x_y")));
}

#[test]
fn grouping_keeps_first_appearance_order() {
    let names = vec![s("B1"), s("A1"), s("B2"), s("C")];
    let dests = vec![Some(s("B")), Some(s("A")), Some(s("B")), None];
    let g = group_by_destination(&names, &dests);
    assert_eq!(g.len(), 2);
    assert_eq!(g[0].dest, s("B"));
    assert_eq!(g[0].members, vec![s("B1"), s("B2")]);
    assert_eq!(g[1].dest, s("A"));
    assert_eq!(g[1].members, vec![s("A1")]);
}

#[test]
fn overlap_detection_reports_each_pair() {
    let ir = IR {
        blocks: vec![Block {
            name: s("B"),
            items: vec![item("X", 0, 4, None), item("Y", 2, 4, None), item("Z", 8, 2, None)],
            description: None,
        }],
        fieldsets: vec![],
        enums: vec![],
    };
    let v = validate(&ir, Options::default());
    assert_eq!(v, vec![Violation::ItemOverlap { block: 0, first: 0, second: 1 }]);
    assert_eq!(find_overlaps(&vec![(0, 4), (2, 4), (8, 2), (3, 1)]), vec![(0, 1), (0, 3), (1, 3)]);
}

#[test]
fn duplicate_values_are_reported() {
    let ir = IR {
        blocks: vec![],
        fieldsets: vec![fieldset("F", vec![field("S", 0, 2, Some("Status"))])],
        enums: vec![enumm(
            "Status",
            2,
            vec![variant("OK", 0, None), variant("FAIL", 1, None), variant("RETRY", 1, None)],
        )],
    };
    let o = Options { allow_unused_fieldsets: true, ..Options::default() };
    let v = validate(&ir, o);
    assert_eq!(v, vec![Violation::DuplicateValue { enumm: 0, first: 1, second: 2 }]);
    assert_eq!(find_duplicates(&vec![5, 5, 5]), vec![(0, 1), (0, 2), (1, 2)]);
}

#[test]
fn unused_enum_respects_allow_flag() {
    let mut ir = sample_ir();
    ir.enums.push(enumm("Orphan", 1, two_state()));
    let strict = validate(&ir, Options::default());
    assert_eq!(strict, vec![Violation::UnusedEnum { enumm: 3 }]);
    let lenient = validate(&ir, Options { allow_unused_enums: true, ..Options::default() });
    assert!(lenient.is_empty());
}

#[test]
fn field_overlap_and_unused_fieldset() {
    let mut ir = sample_ir();
    ir.fieldsets[0].fields[1].bit_offset = 0;
    ir.fieldsets.push(fieldset("Spare", vec![]));
    let v = validate(&ir, Options::default());
    assert_eq!(
        v,
        vec![
            Violation::FieldOverlap { fieldset: 0, first: 0, second: 1 },
            Violation::UnusedFieldSet { fieldset: 2 },
        ]
    );
}

#[test]
fn canonical_order_and_idempotence() {
    let mut ir = sample_ir();
    ir.enums.reverse();
    ir.blocks[0].items.reverse();
    ir.enums[0].variants.reverse();
    ir.fieldsets[0].fields.push(field("LOW", 0, 1, None));
    canonicalize(&mut ir);
    let names: Vec<&str> = ir.enums.iter().map(|e| e.name.as_str()).collect();
    assert_eq!(names, vec!["CtrlEn", "CtrlMode", "StatBusy"]);
    assert_eq!(ir.blocks[0].items[0].name, s("CTRL"));
    assert_eq!(ir.enums[2].variants, two_state());
    let fields: Vec<&str> = ir.fieldsets[0].fields.iter().map(|f| f.name.as_str()).collect();
    assert_eq!(fields, vec!["EN", "LOW", "MODE"]);
    let once = ir.clone();
    canonicalize(&mut ir);
    assert_eq!(ir, once);
}

#[test]
fn repeated_runs_give_identical_results() {
    let mut first: Option<IR> = None;
    for _ in 0..20 {
        let mut ir = sample_ir();
        ir.enums.reverse();
        let m = merge("Ctrl(En|Mode)", "Ctrl", CheckLevel::Strict, false);
        m.run(&mut ir).unwrap();
        canonicalize(&mut ir);
        match &first {
            None => first = Some(ir),
            Some(f) => assert_eq!(&ir, f),
        }
    }
}

#[test]
fn register_accessors() {
    let mut r = Inten(0xF0);
    assert!(!r.hfclkstarted());
    r.set_hfclkstarted(true);
    assert_eq!(r.0, 0xF1);
    assert!(r.hfclkstarted());
    r.set_hfclkstarted(false);
    assert_eq!(r.0, 0xF0);
    let c = Clock::from_ptr(0x4000_0000);
    assert_eq!(c.as_ptr(), 0x4000_0000);
    assert_eq!(c.intenset().as_ptr(), 0x4000_0304);
    assert_eq!(c.intenclr().as_ptr(), 0x4000_0308);
    assert_eq!(Interrupt::POWER_CLOCK.number(), 0);
}

#[test]
fn kept_descriptions_go_to_fields_of_merged_members() {
    let mut ir = sample_ir();
    ir.fieldsets[0].fields[1].description = Some(s("Mode."));
    let mut m = merge("Ctrl(En|Mode)", "Ctrl", CheckLevel::Relaxed, false);
    m.keep_desc = Some(true);
    assert_eq!(m.run(&mut ir), Ok(()));
    assert_eq!(ir.fieldsets[0].fields[0].description, None);
    assert_eq!(ir.fieldsets[0].fields[1].description, Some(s("Mode.\nOFF: Off\nON: On")));
    assert_eq!(ir.fieldsets[0].fields[1].enumm, Some(s("Ctrl")));
}

#[test]
fn notes_list_each_variant() {
    let e = enumm("E", 1, vec![variant("A", 0, Some("first")), variant("B", 1, None)]);
    assert_eq!(notes_of(&e), s("\nA: first\nB: "));
}

#[test]
fn cleanups_tidy_every_description() {
    let mut ir = sample_ir();
    ir.enums[0].variants[0].description = Some(s("Enable the\n   clock"));
    ir.blocks[0].items[1].description = Some(s("Ends here ."));
    ir.fieldsets[0].description = Some(s("Tab\tseparated"));
    let ts = description_cleanups();
    assert_eq!(run_all(&mut ir, &ts), Ok(()));
    assert_eq!(ir.enums[0].variants[0].description, Some(s("Enable the clock.")));
    assert_eq!(ir.blocks[0].items[1].description, Some(s("Ends here.")));
    assert_eq!(ir.fieldsets[0].description, Some(s("Tab separated.")));
    assert_eq!(ir.blocks[0].description, None);
}

#[test]
fn pipeline_stops_at_first_failure() {
    let mut ir = sample_ir();
    let ts = vec![
        Transform::MergeEnums(merge("Ctrl(En|Mode)", "Ctrl", CheckLevel::Strict, false)),
        Transform::MapDescriptions { from: s("("), to: s("") },
        Transform::Sort,
    ];
    let r = run_all(&mut ir, &ts);
    assert_eq!(r, Err(PipelineError { step: 1, error: TransformError::BadPattern { pattern: s("(") } }));
    assert_eq!(ir.enums.len(), 2);
    assert_eq!(ir.enums[0].name, s("StatBusy"));
}

#[test]
fn merge_on_duplicate_names_fails() {
    let mut ir = sample_ir();
    ir.enums.push(enumm("StatBusy", 1, two_state()));
    let before = ir.clone();
    let t = Transform::MergeEnums(merge("Ctrl(En|Mode)", "Ctrl", CheckLevel::Strict, false));
    assert_eq!(t.run(&mut ir), Err(TransformError::DuplicateName));
    assert_eq!(ir, before);
}

#[test]
fn unused_enums_are_removed_in_order() {
    let mut ir = sample_ir();
    ir.enums.insert(1, enumm("Orphan", 1, two_state()));
    ir.enums.push(enumm("Spare", 1, two_state()));
    remove_unused_enums(&mut ir);
    let names: Vec<&str> = ir.enums.iter().map(|e| e.name.as_str()).collect();
    assert_eq!(names, vec!["CtrlEn", "CtrlMode", "StatBusy"]);
}

#[test]
fn rename_points_fields_at_new_names() {
    let mut ir = sample_ir();
    assert_eq!(rename_enums(&mut ir, &s("Ctrl(.+)"), &s("Control${1}")), Ok(()));
    let names: Vec<&str> = ir.enums.iter().map(|e| e.name.as_str()).collect();
    assert_eq!(names, vec!["ControlEn", "ControlMode", "StatBusy"]);
    assert_eq!(ir.fieldsets[0].fields[1].enumm, Some(s("ControlMode")));
    assert_eq!(ir.fieldsets[1].fields[0].enumm, Some(s("StatBusy")));
}

#[test]
fn rename_onto_one_name_fails() {
    let mut ir = sample_ir();
    let before = ir.clone();
    assert_eq!(rename_enums(&mut ir, &s("Ctrl.+"), &s("Ctrl")), Err(TransformError::DuplicateName));
    assert_eq!(ir, before);
    let t = Transform::RenameEnums { from: s("Stat(.+)"), to: s("Status${1}") };
    assert_eq!(t.run(&mut ir), Ok(()));
    assert_eq!(ir.enums[2].name, s("StatusBusy"));
}

#[test]
fn representative_is_smallest_name_whatever_the_list_order() {
    let mut ir = sample_ir();
    ir.enums[0].variants[0].description = Some(s("Disabled"));
    ir.enums.reverse();
    let m = merge("Ctrl(En|Mode)", "Ctrl", CheckLevel::Relaxed, false);
    assert_eq!(m.run(&mut ir), Ok(()));
    let names: Vec<&str> = ir.enums.iter().map(|e| e.name.as_str()).collect();
    assert_eq!(names, vec!["StatBusy", "Ctrl"]);
    assert_eq!(ir.enums[1].variants[0].description, Some(s("Disabled")));
}

#[test]
fn strict_failure_names_first_failing_member() {
    let mut ir = sample_ir();
    ir.enums[2].variants[0].value = 5;
    ir.enums[1].variants[0].name = s("NO");
    let before = ir.clone();
    let m = merge("Ctrl(En|Mode)|StatBusy", "Merged", CheckLevel::Strict, false);
    assert_eq!(
        m.run(&mut ir),
        Err(TransformError::Incompatible { first: s("CtrlEn"), second: s("CtrlMode"), cause: Mismatch::Variant(0) })
    );
    assert_eq!(ir, before);
}

#[test]
fn trim_strips_both_ends() {
    let mut ir = sample_ir();
    ir.enums[0].description = Some(s("  Enable bit.\n"));
    ir.fieldsets[1].fields[0].description = Some(s("Busy"));
    assert_eq!(description_trim().run(&mut ir), Ok(()));
    assert_eq!(ir.enums[0].description, Some(s("Enable bit.")));
    assert_eq!(ir.fieldsets[1].fields[0].description, Some(s("Busy")));
}
