//! The library's laws, each checked on concrete values, and the edges and
//! error variants the other suites do not reach.

use linienschluessel::assoc_model::{
    ChannelId, Claim, GroupId, Hypothesis, HypothesisSet, Item, Observation, ObservationId,
    Refused, SlotLayout, SlotValue, SourceId,
};
use linienschluessel::spectro_adapters::nist_asd_levels::{self, fields};
use linienschluessel::spectro_adapters::{nist_asd_lines, AccuracyGrade, Naming, NotTaken};
use linienschluessel::spectro_contract::document::Document;
use linienschluessel::spectro_contract::value::{parse_number, parse_vocabulary};
use linienschluessel::spectro_contract::{
    level_set, line_list, validate_input, validate_level_set, validate_line_list, HalfInteger, Refusal,
    Refusals, Version,
};

fn layout() -> SlotLayout {
    SlotLayout::new(&["from", "to"]).expect("a layout")
}

fn item(from: &str, to: &str) -> Item {
    Item::new(
        &layout(),
        SourceId::new("SET-1"),
        vec![SlotValue::new(from), SlotValue::new(to)],
        ChannelId::new("C1"),
    )
    .expect("an item")
}

fn hypothesis(items: Vec<Item>) -> Hypothesis {
    Hypothesis::new(items).expect("a hypothesis")
}

// ------------------------------------------------------------ the assignment

#[test]
fn three_items_in_any_order_make_one_hypothesis_in_one_order() {
    let a = hypothesis(vec![item("C", "D"), item("A", "B"), item("B", "A")]);
    let b = hypothesis(vec![item("B", "A"), item("C", "D"), item("A", "B")]);
    assert_eq!(a, b);
    let order: Vec<String> = a.items().map(|i| i.to_text()).collect();
    assert_eq!(order, vec!["SET-1:(A, B) via C1", "SET-1:(B, A) via C1", "SET-1:(C, D) via C1"]);
}

#[test]
fn exclusion_is_symmetric_and_a_claim_never_excludes_itself() {
    let first = Observation::new(ObservationId::new("O1"), GroupId::new("G1"));
    let second = Observation::new(ObservationId::new("O2"), GroupId::new("G1"));
    let other_group = Observation::new(ObservationId::new("O3"), GroupId::new("G2"));
    let h = hypothesis(vec![item("A", "B")]);
    let g = hypothesis(vec![item("A", "B"), item("C", "D")]);
    let claims = [
        Claim::new(&first, &h),
        Claim::new(&first, &g),
        Claim::new(&second, &g),
        Claim::new(&other_group, &h),
    ];
    for a in &claims {
        assert!(!a.excludes(a));
        assert!(!a.shares_support_with(a));
        for b in &claims {
            assert_eq!(a.excludes(b), b.excludes(a));
            assert_eq!(a.shares_support_with(b), b.shares_support_with(a));
            assert!(!(a.excludes(b) && a.shares_support_with(b)));
            assert_eq!(
                a.hypothesis().shares_an_item_with(b.hypothesis()),
                !a.shared_items(b).is_empty()
            );
        }
    }
}

#[test]
fn the_key_counts_each_slot_value_and_the_size_zero_key_has_no_slot() {
    let blend = hypothesis(vec![item("A", "B"), item("A", "C"), item("D", "B")]);
    let key = blend.key();
    assert_eq!(key.width(), 2);
    assert_eq!(key.count(0, &SlotValue::new("A")), 2);
    assert_eq!(key.count(0, &SlotValue::new("D")), 1);
    assert_eq!(key.count(1, &SlotValue::new("B")), 2);
    assert_eq!(key.count(1, &SlotValue::new("Z")), 0);
    assert_eq!(key.count(2, &SlotValue::new("A")), 0);
    assert_eq!(key.multiset(1).map(|m| m.len()), Some(2));
    assert!(key.multiset(2).is_none());

    // Two blends that swap their second values carry one key.
    let crossed = hypothesis(vec![item("A", "D"), item("C", "B")]);
    let straight = hypothesis(vec![item("A", "B"), item("C", "D")]);
    assert_ne!(crossed, straight);
    assert_eq!(crossed.key(), straight.key());

    assert_eq!(Hypothesis::none_of_these().key().width(), 0);
}

#[test]
fn every_refusal_of_the_model_says_what_it_refused() {
    assert_eq!(
        Refused::LayoutHasNoSlot.to_text(),
        "a slot layout declares no slot, so every hypothesis would carry the same key"
    );
    assert_eq!(
        SlotLayout::new(&["a", "b", "a"]).map(|_| ()).unwrap_err().to_text(),
        "two slots are declared under the name `a`"
    );
    assert_eq!(
        Refused::SlotCountDiffers { expected: 2, found: 13 }.to_text(),
        "2 slot(s) were expected and 13 were given"
    );
    let repeated = Hypothesis::new(vec![item("A", "B"), item("C", "D"), item("A", "B")])
        .map(|_| ())
        .unwrap_err();
    assert_eq!(
        repeated.to_text(),
        "the item SET-1:(A, B) via C1 was offered twice inside one hypothesis, which claims it \
         produced part of the observation and then produced it again"
    );
}

#[test]
fn the_first_fault_is_the_one_refused() {
    let narrow = Item::new(
        &SlotLayout::new(&["only"]).expect("a layout"),
        SourceId::new("SET-1"),
        vec![SlotValue::new("A")],
        ChannelId::new("C1"),
    )
    .expect("an item");
    // The repeat comes before the narrow item, so the repeat is named.
    let refused = Hypothesis::new(vec![item("A", "B"), item("A", "B"), narrow]);
    assert!(matches!(refused, Err(Refused::ItemRepeated { .. })));
}

#[test]
fn a_hypothesis_set_orders_its_members_and_keeps_each_once() {
    let set = HypothesisSet::new(
        ObservationId::new("O1"),
        vec![
            hypothesis(vec![item("C", "D")]),
            hypothesis(vec![item("A", "B")]),
            hypothesis(vec![item("C", "D")]),
        ],
    )
    .expect("a set");
    assert_eq!(set.len(), 3);
    let sizes: Vec<usize> = set.iter().map(|h| h.size()).collect();
    assert_eq!(sizes, vec![0, 1, 1]);
    assert!(set.iter().next().expect("a member").is_none_of_these());
}

#[test]
fn an_item_answers_for_its_parts() {
    let i = item("A", "B");
    assert_eq!(i.source().as_str(), "SET-1");
    assert_eq!(i.channel().as_str(), "C1");
    assert_eq!(i.arity(), 2);
    assert_eq!(i.value(1).map(|v| v.as_str()), Some("B"));
    assert!(i.value(2).is_none());
    assert_eq!(layout().names().len(), 2);
    assert_eq!(layout().arity(), 2);
}

// --------------------------------------------------------------- the values

#[test]
fn a_half_integer_reads_back_what_it_writes_in_either_spelling() {
    for twice in [0u32, 1, 2, 7, 9, 40, 4_294_967_295] {
        let h = HalfInteger::parse(&HalfInteger::parse(&format!("{twice}/2"))
            .map(|h| h.to_text())
            .unwrap_or_else(|_| format!("{}", twice / 2)))
        .expect("what is written reads back");
        assert_eq!(h.twice(), twice);
    }
    assert_eq!(HalfInteger::parse("7/2"), HalfInteger::parse("3.5"));
    assert_eq!(HalfInteger::parse("2"), HalfInteger::parse("2.0"));
    assert_eq!(HalfInteger::parse("7/2").expect("a J").to_text(), "7/2");
    assert_eq!(HalfInteger::parse("4.0").expect("a J").to_text(), "4");
    assert!(HalfInteger::parse("3/2").expect("a J").is_half_odd());
    assert_eq!(
        HalfInteger::parse("4/2").unwrap_err(),
        "`4/2` is a whole number written as a fraction, and a whole J is written without one"
    );
    assert_eq!(
        HalfInteger::parse("3/4").unwrap_err(),
        "`3/4` is not a half-integer: the only denominator a half-integer has is 2"
    );
    assert_eq!(
        HalfInteger::parse("2147483648").unwrap_err(),
        "`2147483648` is larger than a J this reader can hold"
    );
}

#[test]
fn a_version_reads_back_what_it_writes() {
    let v = Version::parse("1.4").expect("a version");
    assert_eq!((v.major, v.minor), (1, 4));
    assert_eq!(Version::parse(&v.to_text()), Ok(v));
    assert!(v.is_readable());
    assert!(!Version::parse("2.0").expect("a version").is_readable());
    assert_eq!(
        Version::parse("1").unwrap_err(),
        "`1` is not a major and a minor number separated by a full stop"
    );
    assert_eq!(Version::parse("1.x").unwrap_err(), "`x` is not a number");
    assert_eq!(
        Version::parse("4294967296.0").unwrap_err(),
        "`4294967296` does not fit in a version number"
    );
}

#[test]
fn a_number_cell_is_refused_in_the_words_for_what_is_wrong_with_it() {
    assert!(parse_number("1.5e3").is_ok());
    assert!(parse_number("-0.0").is_ok());
    assert_eq!(
        parse_number(" 1").unwrap_err(),
        "` 1` is padded with whitespace, and no cell is trimmed before it is read"
    );
    assert_eq!(parse_number("inf").unwrap_err(), "`inf` is not a finite number");
    assert_eq!(parse_number("1e400").unwrap_err(), "`1e400` is not a finite number");
    assert_eq!(parse_number("1,5").unwrap_err(), "`1,5` is not a number");
    assert_eq!(parse_vocabulary("odd", &["even", "odd"]), Ok("odd"));
    assert_eq!(
        parse_vocabulary("Odd", &["even", "odd"]).unwrap_err(),
        "`Odd` is not one of `even`, `odd`"
    );
}

// ------------------------------------------------------------ the lexical layer

#[test]
fn bytes_that_are_not_a_utf8_file_are_refused_naming_the_offset() {
    let refusals = Document::lex(b"#a\tb\nx\xff\n").expect_err("not UTF-8");
    assert_eq!(
        refusals.to_text(),
        "the file is not UTF-8: the byte at offset 6 does not begin a valid sequence"
    );
    let refusals = Document::lex(b"\xfe\xff#a\tb\n").expect_err("UTF-16");
    assert_eq!(
        refusals.to_text(),
        "the file begins with a UTF-16 byte order mark, and a conforming file is UTF-8"
    );
}

#[test]
fn a_document_reports_what_its_reader_did_not_name() {
    let doc = Document::lex(b"#a\t1\n#b\t2\nx\ty\tz\n1\t2\t3\n").expect("a document");
    assert_eq!(doc.header("b").map(|h| h.value.as_str()), Some("2"));
    assert!(doc.header("c").is_none());
    assert_eq!(doc.column("z"), Some(2));
    assert_eq!(doc.column("w"), None);
    assert_eq!(doc.headers_outside(&["a"]), vec!["b".to_owned()]);
    assert_eq!(doc.columns_outside(&["y"]), vec!["x".to_owned(), "z".to_owned()]);
    assert_eq!(doc.label_line, 3);
    assert_eq!(doc.rows[0].cells, vec!["1", "2", "3"]);
}

#[test]
fn every_lexical_fault_is_refused_at_once_in_line_order() {
    let refusals = Document::lex(b"#\tv\n#x\n#x\t1\n#x\t2\na\t\ta\n\n1\t2\n").expect_err("faults");
    let said: Vec<String> = refusals.iter().map(|r| r.to_text()).collect();
    assert_eq!(
        said,
        vec![
            "line 6: the line has no bytes in it, and a blank line cannot be told from a row of one empty cell",
            "line 1: the header line names no field before its tab",
            "line 2: the header line carries no tab, so it states a name and no value",
            "line 4, field `x`: the header field appears more than once",
            "line 5: column 2 carries no label",
            "line 5, field `a`: the column label appears more than once",
            "line 7: the row carries 2 cells against 3 labels, so it is refused as a row shape rather than as a missing field",
        ]
    );
}

#[test]
fn refusals_read_one_to_a_line() {
    let mut refusals = Refusals::new();
    assert!(refusals.is_empty());
    refusals.push(Refusal::in_file("whole".to_owned()));
    refusals.push(Refusal::absent_field("f".to_owned(), "gone".to_owned()));
    refusals.push(Refusal::on_line(3, "shape".to_owned()));
    refusals.push(Refusal::field_on_line(4, "g".to_owned(), "bad".to_owned()));
    assert_eq!(refusals.len(), 4);
    assert_eq!(
        refusals.to_text(),
        "whole\nfield `f`: gone\nline 3: shape\nline 4, field `g`: bad"
    );
    assert_eq!(refusals.into_result(()), Err(refusals_again()));
}

fn refusals_again() -> Refusals {
    let mut refusals = Refusals::new();
    refusals.push(Refusal::in_file("whole".to_owned()));
    refusals.push(Refusal::absent_field("f".to_owned(), "gone".to_owned()));
    refusals.push(Refusal::on_line(3, "shape".to_owned()));
    refusals.push(Refusal::field_on_line(4, "g".to_owned(), "bad".to_owned()));
    refusals
}

// --------------------------------------------------------- the cross-file checks

const LEVELS: &str = "#contract_version\t1.0\n#energy_unit\tcm-1\n#energy_reference\tground_state\n\
                      #level_set_id\tset-a\n\
                      level_id\tspecies\tenergy\tenergy_uncertainty\tuncertainty_kind\tuncertainty_class\t\
                      parity\tj\torigin\tconfiguration\tterm\n\
                      L1\tFe II\t0.0\t0.002\tstandard_deviation\t\teven\t4.5\tmeasured\t\t\n";

#[test]
fn a_companion_offered_to_a_level_set_that_names_none_is_refused() {
    let refusals = validate_input(LEVELS.as_bytes(), Some(b"anything"), None)
        .expect_err("a companion that was never named");
    assert_eq!(
        refusals.to_text(),
        "field `covariance_file`: a covariance companion was offered and the level set names none"
    );
}

#[test]
fn a_rate_table_against_another_set_and_an_unknown_level_is_refused_for_both() {
    let rates = "#contract_version\t1.0\n#level_set_id\tset-b\n#rate_unit\ts-1\n\
                 upper_level_id\tlower_level_id\trate\trate_uncertainty\n\
                 L2\tL1\t1.0\tnone\n";
    let refusals = validate_input(LEVELS.as_bytes(), None, Some(rates.as_bytes()))
        .expect_err("refused");
    assert_eq!(
        refusals.to_text(),
        "field `level_set_id`: the rate table is stated against `set-b` and the level set is `set-a`\n\
         line 5, field `upper_level_id`: `L2` names a level the level set does not carry"
    );
    validate_level_set(LEVELS.as_bytes()).expect("the level set alone is conforming");
}

// ------------------------------------------------------------------ the adapters

#[test]
fn a_report_and_a_grade_are_carried_verbatim() {
    let grade = AccuracyGrade::taken(" B+");
    assert_eq!(grade.as_str(), " B+");
    assert_eq!(grade.to_text(), " B+");
    let report = NotTaken {
        line: 12,
        column: "Term".to_owned(),
        value: "331111.7".to_owned(),
        reason: "is a limit".to_owned(),
    };
    assert_eq!(report.to_text(), "line 12, `Term`: `331111.7` is a limit");
    assert_eq!(fields().len(), 17);
}

#[test]
fn an_export_that_is_not_utf8_or_has_no_header_is_refused() {
    let naming = nist_asd_levels::Naming {
        species: "Ne II".to_owned(),
        level_set_id: "x".to_owned(),
    };
    let refusals = nist_asd_levels::convert(b"\xff", &naming).expect_err("not UTF-8");
    assert_eq!(refusals.to_text(), "the export is not UTF-8");
    let refusals = nist_asd_levels::convert(b"", &naming).expect_err("no header");
    assert_eq!(
        refusals.to_text(),
        "the export carries no header row naming a level column, so nothing in it has an energy or a unit"
    );
}

#[test]
fn a_crlf_lines_export_converts_to_a_line_list_the_validator_accepts() {
    let export = "obs_wl_air(nm)\tunc_obs_wl\tintens\r\n\"500.1\"\t\"\"\t\"12x\"\r\n\"500.2\"\t\"0.01\"\t\"\"\r\n";
    let naming = Naming {
        spectrum_id: "S1".to_owned(),
        line_list_id: "crlf".to_owned(),
    };
    let conversion = nist_asd_lines::convert(export.as_bytes(), &naming).expect("converts");
    assert!(!conversion.line_list.contains('\r'));
    validate_line_list(conversion.line_list.as_bytes()).expect("the emitted file is accepted");
    let lines = line_list::read(conversion.line_list.as_bytes()).expect("reads back");
    assert_eq!(lines.lines.len(), 2);
    assert_eq!(lines.lines[0].feature_id, "l2");
    assert_eq!(lines.lines[1].feature_id, "l3");
}

#[test]
fn a_carriage_return_inside_a_unit_is_refused_by_either_adapter() {
    let export = "obs_wl_air(n\rm)\tunc_obs_wl\n\"500.1\"\t\"\"\n";
    let naming = Naming {
        spectrum_id: "S1".to_owned(),
        line_list_id: "cr".to_owned(),
    };
    let refusals = nist_asd_lines::convert(export.as_bytes(), &naming).expect_err("the unit would break a line");
    assert!(refusals.to_text().contains("carries a carriage return in its unit"));
    let levels = "Configuration\tTerm\tJ\tPrefix\tLevel (cm\r-1)\tSuffix\n\"2s\"\t\"2S\"\t\"1/2\"\t\"\"\t\"0.0\"\t\"\"\n";
    let naming = nist_asd_levels::Naming {
        species: "Ne II".to_owned(),
        level_set_id: "cr".to_owned(),
    };
    let refusals = nist_asd_levels::convert(levels.as_bytes(), &naming).expect_err("the unit would break a line");
    assert!(refusals.to_text().contains("line 1, field `Level`"));
    assert!(refusals.to_text().contains("carries a carriage return in its unit"));
}

#[test]
fn a_crlf_levels_export_converts_to_a_level_set_the_validator_accepts() {
    let export = "Configuration\tTerm\tJ\tPrefix\tLevel (cm-1)\tSuffix\tUncertainty (cm-1)\r\n\
        \"2s2.2p5\"\t\"2P*\"\t\"3/2\"\t\"\"\t\"0.0000\"\t\"\"\t\"0\"\r\n\
        \"2s.2p6\"\t\"2S\"\t\"1/2\"\t\"[\"\t\"216333.412\"\t\"]\"\t\"\"\r\n";
    let naming = nist_asd_levels::Naming {
        species: "Ne II".to_owned(),
        level_set_id: "crlf".to_owned(),
    };
    let conversion = nist_asd_levels::convert(export.as_bytes(), &naming).expect("converts");
    assert!(!conversion.level_set.contains('\r'));
    validate_level_set(conversion.level_set.as_bytes()).expect("the emitted file is accepted");
    let levels = level_set::read(conversion.level_set.as_bytes()).expect("reads back");
    assert_eq!(levels.levels.len(), 2);
    assert_eq!(levels.levels[1].level_id, "l3");
    assert_eq!(levels.levels[1].origin, "predicted");
}

#[test]
fn every_refusal_of_a_line_list_and_a_rate_table_names_a_place() {
    let lines = "#contract_version\t1.0\n#position_unit\tnm\n#line_list_id\tL\n\
        feature_id\tspectrum_id\tposition\tposition_uncertainty\tuncertainty_kind\tuncertainty_class\tflags\tintensity\n\
        F1\tS1\t12.x\tnone\tstandard_deviation\t\tblended,blended\t3\n\
        F1\t\t1.0\t0.1\tclass\t\t\t\n";
    let refusals = validate_line_list(lines.as_bytes()).expect_err("faults on every line");
    assert!(refusals.len() >= 5);
    for refusal in refusals.iter() {
        assert!(refusal.line.is_some() || refusal.field.is_some(), "{}", refusal.to_text());
    }
    let rates = "#contract_version\t1.0\n\
        upper_level_id\tlower_level_id\trate\trate_uncertainty\n\
        L1\tL1\t1e8\tnone\n\
        L2\tL1\tfast\tnone\n";
    let refusals = linienschluessel::spectro_contract::validate_rate_table(rates.as_bytes())
        .expect_err("faults in the header and the rows");
    assert!(refusals.len() >= 3);
    for refusal in refusals.iter() {
        assert!(refusal.line.is_some() || refusal.field.is_some(), "{}", refusal.to_text());
    }
}

#[test]
fn a_crlf_file_and_one_without_its_last_terminator_read_as_the_lf_file() {
    let lf = "#contract_version\t1.0\n#energy_unit\tcm-1\n#energy_reference\tground_level\n#level_set_id\tX\n\
        level_id\tspecies\tenergy\tenergy_uncertainty\tuncertainty_kind\tuncertainty_class\tparity\tj\torigin\tconfiguration\tterm\n\
        L1\tFe II\t0.0\tnone\tstandard_deviation\t\teven\t9/2\tmeasured\t3d6.4s\ta6D\n";
    let crlf = lf.replace('\n', "\r\n");
    let bare = &lf[..lf.len() - 1];
    let a = level_set::read(lf.as_bytes()).expect("LF");
    let b = level_set::read(crlf.as_bytes()).expect("CRLF");
    let c = level_set::read(bare.as_bytes()).expect("no last terminator");
    assert_eq!(a, b);
    assert_eq!(a, c);
    assert_eq!(a.levels[0].term, "a6D");
}

#[test]
fn a_companion_stating_another_contract_version_is_refused() {
    let levels = "#contract_version\t1.0\n#energy_unit\tcm-1\n#energy_reference\tground_level\n#level_set_id\tX\n\
        level_id\tspecies\tenergy\tenergy_uncertainty\tuncertainty_kind\tuncertainty_class\tparity\tj\torigin\tconfiguration\tterm\n\
        L1\tFe II\t0.0\tnone\tstandard_deviation\t\teven\t9/2\tmeasured\t3d6.4s\ta6D\n";
    let companion = "#contract_version\t1.3\n#level_set_id\tX\n\
        level_id_a\tlevel_id_b\tcovariance\n\
        L1\tL1\t0.01\n";
    let set = level_set::read(levels.as_bytes()).expect("level set");
    let cov = linienschluessel::spectro_contract::covariance::read(companion.as_bytes()).expect("companion");
    let refusals = cov.check_against(&set).expect_err("another contract version");
    assert_eq!(refusals.len(), 1);
    assert_eq!(
        refusals.to_text(),
        "field `contract_version`: the companion states contract version `1.3` and the level set states `1.0`"
    );
}

#[test]
fn a_hypothesis_holds_as_many_items_as_offered_and_its_key_counts_each_once() {
    let h = hypothesis(vec![item("b", "x"), item("a", "x"), item("c", "y")]);
    assert_eq!(h.size(), 3);
    let key = h.key();
    for slot in 0..key.width() {
        let multiset = key.multiset(slot).expect("a slot");
        let mut total = 0;
        for value in ["a", "b", "c", "x", "y"] {
            total += multiset.count(&SlotValue::new(value));
        }
        assert_eq!(total, h.size());
    }
}

#[test]
fn shared_items_are_ordered_and_the_same_from_either_side() {
    let a = hypothesis(vec![item("c", "x"), item("a", "x"), item("b", "y")]);
    let b = hypothesis(vec![item("b", "y"), item("c", "x"), item("d", "z")]);
    let ab = a.shared_items(&b);
    let ba = b.shared_items(&a);
    assert_eq!(ab, ba);
    assert_eq!(ab.len(), 2);
    assert_eq!(ab[0].rank(&ab[1]), linienschluessel::assoc_model::order::Rank::Before);
    let aa = a.shared_items(&a);
    assert_eq!(aa.len(), a.size());
}

#[test]
fn a_half_integer_reads_from_its_spellings_and_from_nothing_else() {
    for read in ["3/2", "1/2", "1.5", "1.0", "7", "007", "0.5"] {
        assert!(HalfInteger::parse(read).is_ok(), "{read} reads");
    }
    for refused in ["", "/2", "3/", "1.", ".5", "1.25", "-1", "+3/2", "3/2/2", "0/2", "1.5.0", " 2", "2147483648.0"] {
        assert!(HalfInteger::parse(refused).is_err(), "{refused} is refused");
    }
    assert_eq!(HalfInteger::parse("2147483647.5").expect("a J").twice(), 4_294_967_295);
}

#[test]
fn a_version_reads_from_two_components_and_a_full_stop_only() {
    assert_eq!(Version::parse("01.002").map(|v| (v.major, v.minor)), Ok((1, 2)));
    for refused in ["", ".", "1.", ".1", "1.2.3", "a.1", "1.-2", "1 .2"] {
        assert!(Version::parse(refused).is_err(), "{refused} is refused");
    }
}

#[test]
fn a_lexed_document_keeps_file_order_and_no_line_ending_in_a_field() {
    let doc = Document::lex(b"#a\t1\r\n#b\t2\r\nx\ty\r\n1\t2\r\n3\t4\r\n").expect("a document");
    assert_eq!(doc.headers.iter().map(|h| h.line).collect::<Vec<_>>(), vec![1, 2]);
    assert_eq!(doc.label_line, 3);
    assert_eq!(doc.rows.iter().map(|r| r.line).collect::<Vec<_>>(), vec![4, 5]);
    assert_eq!(doc.headers[1].value, "2");
    assert_eq!(doc.rows[1].cells, vec!["3", "4"]);
    for text in doc.labels.iter().chain(doc.rows.iter().flat_map(|r| r.cells.iter())) {
        assert!(!text.contains('\r') && !text.contains('\n'));
    }
}

#[test]
fn a_half_integer_reads_to_the_value_its_spelling_writes() {
    assert_eq!(HalfInteger::parse("7/2").expect("a J").twice(), 7);
    assert_eq!(HalfInteger::parse("3.5").expect("a J").twice(), 7);
    assert_eq!(HalfInteger::parse("3.0").expect("a J").twice(), 6);
    assert_eq!(HalfInteger::parse("3").expect("a J").twice(), 6);
}

#[test]
fn any_text_lexes_alike_with_crlf_endings_and_an_unterminated_last_line() {
    for text in ["#a\t1\nx\ty\n1\t2", "#a\t1\nx\ty\n1\t2\n", "x\ty\n\n1\t2", "x\ty\n1\t2\t3"] {
        let crlf = text.replace('\n', "\r\n");
        assert_eq!(Document::lex(crlf.as_bytes()), Document::lex(text.as_bytes()), "{text:?}");
    }
}
