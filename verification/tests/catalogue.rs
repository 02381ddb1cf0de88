use cheap_jio::failure::RefreshError;
use cheap_jio::json::Json;
use cheap_jio::number::Ratio;
use cheap_jio::order::Rank;
use cheap_jio::parse::{get_misc_details_from_data_map, parse_jio_data, parse_plan};
use cheap_jio::plan::PlanRecord;
use cheap_jio::sort::sort_plans;

fn text(s: &str) -> Json {
    Json::Text(s.to_string())
}

fn object(members: Vec<(&str, Json)>) -> Json {
    Json::Object(members.into_iter().map(|(k, v)| (k.to_string(), v)).collect())
}

fn detail(header: &str, value: &str) -> Json {
    object(vec![("header", text(header)), ("value", text(value))])
}

fn details(validity: &str, total_data: &str, voice: &str) -> Vec<Json> {
    vec![
        detail("Pack validity", validity),
        detail("Total data", total_data),
        detail("Data at high speed*", "1.5 GB/day"),
        detail("Voice", voice),
    ]
}

fn plan_with(name: &str, amount: &str, entries: Vec<Json>) -> Json {
    object(vec![
        ("planName", text(name)),
        ("amount", text(amount)),
        ("description", text("Unlimited calls and data for the whole validity period")),
        ("misc", object(vec![("details", Json::List(entries))])),
    ])
}

fn plan(name: &str, amount: &str, validity: &str, total_data: &str, voice: &str) -> Json {
    plan_with(name, amount, details(validity, total_data, voice))
}

fn category(label: &str, plans: Vec<Json>) -> Json {
    object(vec![
        ("type", text(label)),
        ("subCategories", Json::List(vec![object(vec![("plans", Json::List(plans))])])),
    ])
}

fn document(plans: Vec<Json>) -> Json {
    object(vec![("planCategories", Json::List(vec![category("Popular", plans)]))])
}

fn without(value: Json, key: &str) -> Json {
    match value {
        Json::Object(members) => Json::Object(members.into_iter().filter(|(k, _)| k != key).collect()),
        other => other,
    }
}

fn names(records: &Vec<PlanRecord>) -> Vec<String> {
    records.iter().map(|r| r.name().to_string()).collect()
}

#[test]
fn two_plans_parse_and_sort_with_calling_first() {
    let doc = document(vec![
        plan("Plan B", "99", "23 Days", "1 GB", ""),
        plan("Plan A", "199", "28 Days", "2 GB", "Unlimited"),
    ]);
    let records = parse_jio_data(&doc).unwrap();
    assert_eq!(names(&records), vec!["Plan B", "Plan A"]);
    assert!(!records[0].call_available());
    assert!(records[1].call_available());
    let sorted = sort_plans(records);
    assert_eq!(names(&sorted), vec!["Plan A", "Plan B"]);
}

#[test]
fn end_to_end_example_in_document_order() {
    let doc = document(vec![
        plan("Plan A", "199", "28 Days", "2 GB", "Unlimited"),
        plan("Plan B", "99", "23 Days", "1 GB", ""),
    ]);
    let records = parse_jio_data(&doc).unwrap();
    assert_eq!(records.len(), 2);
    assert_eq!(records[0].call_available(), true);
    assert_eq!(records[1].call_available(), false);
    assert_eq!(records[0].rank_against(&records[1]), Rank::Before);
    let sorted = sort_plans(records);
    assert_eq!(names(&sorted), vec!["Plan A", "Plan B"]);
}

#[test]
fn record_holds_the_extracted_fields() {
    let doc = document(vec![plan("MRP 199", "199", "28 Days", "2 GB", "Unlimited")]);
    let records = parse_jio_data(&doc).unwrap();
    assert_eq!(records.len(), 1);
    let r = &records[0];
    assert_eq!(r.name(), "MRP 199");
    assert_eq!(r.price(), "199");
    assert_eq!(r.validity(), "28");
    assert_eq!(r.validity_days(), 28);
    assert_eq!(r.total_data(), "2");
    assert_eq!(r.data_at_high_speed(), "1.5 GB/day");
    assert_eq!(r.description(), "Unlimited calls and data for the whole validity period");
    assert_eq!(r.category(), "Popular");
    assert!(r.call_available());
    assert_eq!(r.price_value(), Ratio { num: 199, den: 1 });
    assert_eq!(r.price_per_day(), Ratio { num: 199, den: 28 });
    assert_eq!(r.price_per_gb(), Ratio { num: 199, den: 2 });
}

#[test]
fn metrics_of_decimal_texts_are_exact_quotients() {
    let doc = document(vec![plan("Half", "199.5", "30 Days", "1.5 GB", "")]);
    let records = parse_jio_data(&doc).unwrap();
    let r = &records[0];
    assert_eq!(r.price_value(), Ratio { num: 1995, den: 10 });
    assert_eq!(r.price_per_day(), Ratio { num: 1995, den: 300 });
    assert_eq!(r.price_per_gb(), Ratio { num: 19950, den: 150 });
    let day = r.price_per_day();
    assert_eq!(day.num * 10 * 30, 1995 * day.den);
    let gb = r.price_per_gb();
    assert_eq!(gb.num * 10 * 15, 1995 * 10 * gb.den);
}

#[test]
fn name_jp2999_is_never_present() {
    let doc = document(vec![
        plan("JP2999", "2999", "365 Days", "912.5 GB", "Unlimited"),
        plan("Keep", "10", "1 Days", "1 GB", ""),
    ]);
    assert_eq!(names(&parse_jio_data(&doc).unwrap()), vec!["Keep"]);
    let odd = document(vec![plan("JP2999", "not a number", "", "x", "")]);
    assert_eq!(parse_jio_data(&odd).unwrap().len(), 0);
}

#[test]
fn names_with_an_excluded_first_token_are_skipped() {
    let doc = document(vec![
        plan("JP 75", "75", "23 Days", "2.5 GB", "Unlimited"),
        plan("  JB 123", "123", "28 Days", "14 GB", "Unlimited"),
        plan("JBL speaker pack", "50", "28 Days", "14 GB", "Unlimited"),
        plan("MRP JP", "20", "2 Days", "1 GB", ""),
        plan("jp 19", "19", "1 Days", "1 GB", ""),
    ]);
    assert_eq!(names(&parse_jio_data(&doc).unwrap()), vec!["MRP JP", "jp 19"]);
}

#[test]
fn plans_without_data_allowance_are_skipped() {
    let no_entry = plan_with(
        "No entry",
        "10",
        vec![detail("Pack validity", "1 Days"), detail("Voice", "Unlimited")],
    );
    let doc = document(vec![
        plan("Empty", "10", "1 Days", "", "Unlimited"),
        plan("Blank", "10", "1 Days", "   ", "Unlimited"),
        no_entry,
        plan("Data", "10", "1 Days", "1 GB", "Unlimited"),
    ]);
    assert_eq!(names(&parse_jio_data(&doc).unwrap()), vec!["Data"]);
}

#[test]
fn skip_for_missing_data_comes_before_the_numbers_are_read() {
    let doc = document(vec![plan("Odd", "a lot", "soon", "", "")]);
    assert_eq!(parse_jio_data(&doc).unwrap().len(), 0);
}

#[test]
fn categories_missing() {
    assert_eq!(parse_jio_data(&object(vec![])), Err(RefreshError::CategoriesMissing));
    assert_eq!(parse_jio_data(&Json::Null), Err(RefreshError::CategoriesMissing));
    assert_eq!(
        parse_jio_data(&object(vec![("planCategories", text("none"))])),
        Err(RefreshError::CategoriesMissing)
    );
}

#[test]
fn empty_category_list_gives_no_records() {
    let doc = object(vec![("planCategories", Json::List(vec![]))]);
    assert_eq!(parse_jio_data(&doc), Ok(vec![]));
}

#[test]
fn category_type_missing() {
    let cat = without(category("Popular", vec![]), "type");
    let doc = object(vec![("planCategories", Json::List(vec![cat]))]);
    assert_eq!(parse_jio_data(&doc), Err(RefreshError::CategoryTypeMissing));
}

#[test]
fn sub_categories_missing() {
    let cat = without(category("Popular", vec![]), "subCategories");
    let doc = object(vec![("planCategories", Json::List(vec![cat]))]);
    assert_eq!(parse_jio_data(&doc), Err(RefreshError::SubCategoriesMissing));
}

#[test]
fn plans_missing() {
    let cat = object(vec![("type", text("Popular")), ("subCategories", Json::List(vec![object(vec![])]))]);
    let doc = object(vec![("planCategories", Json::List(vec![cat]))]);
    assert_eq!(parse_jio_data(&doc), Err(RefreshError::PlansMissing));
}

#[test]
fn plan_structure_missing() {
    let good = plan("Plan", "10", "1 Days", "1 GB", "");
    for key in ["misc", "planName", "amount"] {
        let doc = document(vec![without(plan("Plan", "10", "1 Days", "1 GB", ""), key)]);
        assert_eq!(parse_jio_data(&doc), Err(RefreshError::PlanStructureMissing));
    }
    let no_details = object(vec![
        ("planName", text("Plan")),
        ("amount", text("10")),
        ("description", text("d")),
        ("misc", object(vec![])),
    ]);
    assert_eq!(parse_jio_data(&document(vec![no_details])), Err(RefreshError::PlanStructureMissing));
    assert_eq!(parse_jio_data(&document(vec![good])).unwrap().len(), 1);
}

#[test]
fn description_missing() {
    let doc = document(vec![without(plan("Plan", "10", "1 Days", "1 GB", ""), "description")]);
    assert_eq!(parse_jio_data(&doc), Err(RefreshError::DescriptionMissing));
}

#[test]
fn unusable_numbers_fail_the_plan_structure() {
    for (amount, validity, total) in [
        ("ten", "1 Days", "1 GB"),
        ("10", "soon", "1 GB"),
        ("10", "1.5 Days", "1 GB"),
        ("10", "1 Days", "Unlimited"),
        ("10", "", "1 GB"),
        ("0", "0 Days", "1 GB"),
        ("0", "1 Days", "0 GB"),
        ("0.00", "0 Days", "0.0 GB"),
        ("99999999999", "1 Days", "1 GB"),
    ] {
        let doc = document(vec![plan("Plan", amount, validity, total, "")]);
        assert_eq!(parse_jio_data(&doc), Err(RefreshError::PlanStructureMissing));
    }
}

#[test]
fn zero_validity_or_zero_data_is_kept_with_an_infinite_metric() {
    let doc = document(vec![
        plan("No days", "10", "0 Days", "1 GB", ""),
        plan("No data", "10", "1 Days", "0 GB", ""),
        plan("Neither", "10", "0 Days", "0.0 GB", ""),
    ]);
    let records = parse_jio_data(&doc).unwrap();
    assert_eq!(names(&records), vec!["No days", "No data", "Neither"]);
    assert_eq!(records[0].price_per_day(), Ratio { num: 10, den: 0 });
    assert_eq!(records[0].price_per_gb(), Ratio { num: 10, den: 1 });
    assert_eq!(records[1].price_per_day(), Ratio { num: 10, den: 1 });
    assert_eq!(records[1].price_per_gb(), Ratio { num: 10, den: 0 });
    assert_eq!(records[2].price_per_day().den, 0);
    assert_eq!(records[2].price_per_gb().den, 0);
    assert_eq!(records[0].validity(), "0");
    assert_eq!(records[1].total_data(), "0");
}

#[test]
fn one_plan_with_a_zero_divisor_does_not_end_the_cycle() {
    let doc = document(vec![
        plan("Good", "199", "28 Days", "2 GB", ""),
        plan("No days", "10", "0 Days", "1 GB", ""),
    ]);
    let sorted = sort_plans(parse_jio_data(&doc).unwrap());
    assert_eq!(names(&sorted), vec!["Good", "No days"]);
}

#[test]
fn missing_description_is_found_before_a_zero_divisor() {
    for (amount, validity, total) in
        [("10", "0 Days", "1 GB"), ("10", "1 Days", "0 GB"), ("0", "0 Days", "1 GB"), ("0", "1 Days", "0 GB")]
    {
        let doc = document(vec![without(plan("Plan", amount, validity, total, ""), "description")]);
        assert_eq!(parse_jio_data(&doc), Err(RefreshError::DescriptionMissing));
    }
}

#[test]
fn unusable_numbers_are_found_before_a_missing_description() {
    let doc = document(vec![without(plan("Plan", "ten", "1 Days", "1 GB", ""), "description")]);
    assert_eq!(parse_jio_data(&doc), Err(RefreshError::PlanStructureMissing));
}

#[test]
fn first_malformed_element_in_document_order_decides() {
    let bad_plan = without(plan("Plan", "10", "1 Days", "1 GB", ""), "description");
    let first = category("One", vec![plan("Good", "10", "1 Days", "1 GB", ""), bad_plan]);
    let second = without(category("Two", vec![]), "type");
    let doc = object(vec![("planCategories", Json::List(vec![first, second]))]);
    assert_eq!(parse_jio_data(&doc), Err(RefreshError::DescriptionMissing));
    let first = category("One", vec![plan("Good", "10", "1 Days", "1 GB", "")]);
    let second = without(category("Two", vec![]), "type");
    let doc = object(vec![("planCategories", Json::List(vec![first, second]))]);
    assert_eq!(parse_jio_data(&doc), Err(RefreshError::CategoryTypeMissing));
}

#[test]
fn records_keep_document_order_across_categories() {
    let doc = object(vec![(
        "planCategories",
        Json::List(vec![
            category("One", vec![plan("a", "3", "1 Days", "1 GB", ""), plan("b", "2", "1 Days", "1 GB", "")]),
            category("Two", vec![plan("c", "1", "1 Days", "1 GB", "")]),
        ]),
    )]);
    let records = parse_jio_data(&doc).unwrap();
    assert_eq!(names(&records), vec!["a", "b", "c"]);
    assert_eq!(records[2].category(), "Two");
}

#[test]
fn parsing_twice_gives_identical_lists() {
    let doc = document(vec![
        plan("Plan A", "199", "28 Days", "2 GB", "Unlimited"),
        plan("JP 1", "1", "1 Days", "1 GB", ""),
        plan("Plan B", "99", "23 Days", "1 GB", ""),
    ]);
    let first = parse_jio_data(&doc);
    let second = parse_jio_data(&doc);
    assert_eq!(first, second);
    assert_eq!(first.unwrap().len(), 2);
}

#[test]
fn parse_plan_tells_kept_skipped_and_failed_apart() {
    let kept = parse_plan("Popular", &plan("Plan", "10", "1 Days", "1 GB", ""));
    assert_eq!(kept.unwrap().unwrap().category(), "Popular");
    assert_eq!(parse_plan("Popular", &plan("JP 1", "10", "1 Days", "1 GB", "")), Ok(None));
    assert_eq!(parse_plan("Popular", &Json::Null), Err(RefreshError::PlanStructureMissing));
}

#[test]
fn lookup_takes_the_first_token_or_the_whole_value() {
    let entries = vec![
        object(vec![("value", text("no header"))]),
        detail("Pack validity", "  28   Days "),
        detail("Voice", "Unlimited calls"),
        detail("Voice", "second"),
        object(vec![("header", text("Bare"))]),
    ];
    assert_eq!(get_misc_details_from_data_map(&entries, "Pack validity", true), "28");
    assert_eq!(get_misc_details_from_data_map(&entries, "Pack validity", false), "  28   Days ");
    assert_eq!(get_misc_details_from_data_map(&entries, "Voice", false), "Unlimited calls");
    assert_eq!(get_misc_details_from_data_map(&entries, "Voice", true), "Unlimited");
    assert_eq!(get_misc_details_from_data_map(&entries, "voice", false), "");
    assert_eq!(get_misc_details_from_data_map(&entries, "Total data", true), "");
    assert_eq!(get_misc_details_from_data_map(&entries, "Bare", true), "");
    assert_eq!(get_misc_details_from_data_map(&vec![], "Voice", false), "");
}

#[test]
fn voice_decides_calling() {
    let doc = document(vec![
        plan("With", "10", "1 Days", "1 GB", " "),
        plan("Without", "10", "1 Days", "1 GB", ""),
    ]);
    let records = parse_jio_data(&doc).unwrap();
    assert!(records[0].call_available());
    assert!(!records[1].call_available());
}

#[test]
fn object_members_are_found_by_name() {
    let value = object(vec![("a", text("x")), ("b", Json::List(vec![Json::Null])), ("a", text("y"))]);
    assert_eq!(value.get_str("a"), Some("x"));
    assert_eq!(value.get_str("b"), None);
    assert_eq!(value.get_array("b").map(|v| v.len()), Some(1));
    assert_eq!(value.get("c"), None);
    assert_eq!(Json::Bool(true).get("a"), None);
    assert_eq!(text("t").as_str(), Some("t"));
    assert_eq!(Json::Number("1".to_string()).as_str(), None);
    assert_eq!(text("t").as_array(), None);
}

#[test]
fn metrics_agree_with_floating_point_division() {
    let doc = document(vec![
        plan("A", "199", "28 Days", "2 GB", "Unlimited"),
        plan("B", "2999.50", "365 Days", "912.5 GB", "Unlimited"),
    ]);
    let records = parse_jio_data(&doc).unwrap();
    let cases = [(199.0_f64, 28.0_f64, 2.0_f64), (2999.5, 365.0, 912.5)];
    for (record, (price, validity, data)) in records.iter().zip(cases) {
        let per_day = record.price_per_day().num as f64 / record.price_per_day().den as f64;
        let per_gb = record.price_per_gb().num as f64 / record.price_per_gb().den as f64;
        assert!((per_day - price / validity).abs() < 1e-9);
        assert!((per_gb - price / data).abs() < 1e-9);
    }
}
