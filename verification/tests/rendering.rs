use cheap_jio::plan::PlanRecord;

#[test]
fn line_joins_the_fields_behind_their_labels() {
    let record = PlanRecord::new(
        "Popular".to_string(),
        "Plan A".to_string(),
        "199".to_string(),
        "28".to_string(),
        "2".to_string(),
        "a".repeat(50),
        "1.5 GB/day".to_string(),
        true,
    )
    .unwrap();
    let expected = format!(
        "Category: Popular | Name: Plan A | Price: 199 | Price per day: 7.107142857142857 | Price per GB: 99.5 | Data at high speed: 1.5 GB/day | Total Data : 2 | Validity: 28 | Description: {} | Call Available: true <br/> <br/>",
        "a".repeat(45)
    );
    assert_eq!(record.render_line("7.107142857142857", "99.5"), expected);
}

#[test]
fn line_of_a_plan_without_calling() {
    let record = PlanRecord::new(
        String::new(),
        "B".to_string(),
        "99".to_string(),
        "23".to_string(),
        "1".to_string(),
        "short".to_string(),
        String::new(),
        false,
    )
    .unwrap();
    assert_eq!(
        record.render_line("x", "y"),
        "Category:  | Name: B | Price: 99 | Price per day: x | Price per GB: y | Data at high speed:  | Total Data : 1 | Validity: 23 | Description: short | Call Available: false <br/> <br/>"
    );
}
