//! Extraction of plan records from a catalogue document.
//!
//! The document nests categories, sub-categories and plans. Every plan is
//! either kept as a record, skipped by one of the two filters, or found
//! malformed; the first malformed element in document order ends the
//! extraction with its failure, and no records.

use vstd::prelude::*;
use vstd::string::*;
use crate::failure::RefreshError;
use crate::json::Json;
use crate::number::amount_of;
use crate::plan::{measured, readable, PlanRecord, PlanView};
use crate::text::{first_token, first_token_of, same_text, starts_with};

verus! {

/// What becomes of one plan element.
pub enum PlanOutcome {
    /// Left out by a filter; not an error.
    Skipped,
    /// Kept as this record.
    Kept(PlanView),
    /// Malformed; ends the extraction.
    Failed(RefreshError),
}

/// The views of a sequence of records, in order.
pub open spec fn views(records: Seq<PlanRecord>) -> Seq<PlanView> {
    records.map_values(|p: PlanRecord| p@)
}

/// Whether `r` reports `expected`: the same failure, or records with exactly
/// the expected views in the expected order.
pub open spec fn reports(
    r: Result<Vec<PlanRecord>, RefreshError>,
    expected: Result<Seq<PlanView>, RefreshError>,
) -> bool {
    match r {
        Ok(v) => expected == Ok::<Seq<PlanView>, RefreshError>(views(v@)),
        Err(e) => expected == Err::<Seq<PlanView>, RefreshError>(e),
    }
}

/// Whether the first whitespace-delimited token of a plan name begins with
/// one of the markers of device-bundled and feature-phone plans, `JP` and
/// `JB`. The markers are matched as they are written, in upper case.
pub open spec fn is_excluded_name(name: Seq<char>) -> bool {
    "JP"@.is_prefix_of(first_token(name)) || "JB"@.is_prefix_of(first_token(name))
}

/// The value of the first of `details` whose header is `key`, reduced to its
/// first token if `first_token_only`; empty when no entry has that header or
/// the entry has no string value.
pub open spec fn detail_value(details: Seq<Json>, key: Seq<char>, first_token_only: bool) -> Seq<
    char,
>
    decreases details.len(),
{
    if details.len() == 0 {
        Seq::empty()
    } else if details[0].text_at("header"@) == Some(key) {
        let value = match details[0].text_at("value"@) {
            Some(v) => v,
            None => Seq::empty(),
        };
        if first_token_only {
            first_token(value)
        } else {
            value
        }
    } else {
        detail_value(details.drop_first(), key, first_token_only)
    }
}

/// The keyed descriptive entries of a plan: the list `details` of its member
/// `misc`.
pub open spec fn plan_details(plan: Json) -> Option<Seq<Json>> {
    match plan.member("misc"@) {
        Some(misc) => misc.items_at("details"@),
        None => None,
    }
}

/// What becomes of the plan element `plan` of a category labelled `category`.
/// The first of these rules that applies decides:
///
/// 1. no details or no name: fails with `PlanStructureMissing`;
/// 2. the name is excluded: skipped;
/// 3. no amount: fails with `PlanStructureMissing`;
/// 4. the first token of the data allowance is empty: skipped;
/// 5. price, validity or data allowance does not read as a number: fails
///    with `PlanStructureMissing`;
/// 6. no description: fails with `DescriptionMissing`;
/// 7. the price is zero over zero days or over no data, so that a metric has
///    no value: fails with `PlanStructureMissing`;
/// 8. otherwise the plan is kept, as the record that `measured` makes of its
///    texts. A positive price over zero days or over no data is kept, with an
///    infinite metric. Calling is available exactly when the entry `Voice`
///    is not empty.
pub open spec fn plan_outcome(category: Seq<char>, plan: Json) -> PlanOutcome {
    match (plan_details(plan), plan.text_at("planName"@)) {
        (Some(details), Some(name)) => {
            if is_excluded_name(name) {
                PlanOutcome::Skipped
            } else {
                match plan.text_at("amount"@) {
                    None => PlanOutcome::Failed(RefreshError::PlanStructureMissing),
                    Some(price) => {
                        let validity = detail_value(details, "Pack validity"@, true);
                        let total_data = detail_value(details, "Total data"@, true);
                        let speed = detail_value(details, "Data at high speed*"@, false);
                        let voice = detail_value(details, "Voice"@, false);
                        if total_data.len() == 0 {
                            PlanOutcome::Skipped
                        } else if !readable(price, validity, total_data) {
                            PlanOutcome::Failed(RefreshError::PlanStructureMissing)
                        } else {
                            match plan.text_at("description"@) {
                                None => PlanOutcome::Failed(RefreshError::DescriptionMissing),
                                Some(description) => match measured(
                                    category,
                                    name,
                                    price,
                                    validity,
                                    total_data,
                                    description,
                                    speed,
                                    voice.len() > 0,
                                ) {
                                    None => PlanOutcome::Failed(
                                        RefreshError::PlanStructureMissing,
                                    ),
                                    Some(record) => PlanOutcome::Kept(record),
                                },
                            }
                        }
                    },
                }
            }
        },
        _ => PlanOutcome::Failed(RefreshError::PlanStructureMissing),
    }
}

/// The records of the elements of `items`, in order, where `each` gives the
/// records of one element; the failure of the first element that has one.
pub open spec fn gather(
    items: Seq<Json>,
    each: spec_fn(Json) -> Result<Seq<PlanView>, RefreshError>,
) -> Result<Seq<PlanView>, RefreshError>
    decreases items.len(),
{
    if items.len() == 0 {
        Ok(Seq::empty())
    } else {
        match gather(items.drop_last(), each) {
            Err(e) => Err(e),
            Ok(found) => match each(items.last()) {
                Err(e) => Err(e),
                Ok(more) => Ok(found + more),
            },
        }
    }
}

/// The records of one plan element: none if it is skipped, one if it is kept.
pub open spec fn records_of_plan(category: Seq<char>, plan: Json) -> Result<
    Seq<PlanView>,
    RefreshError,
> {
    match plan_outcome(category, plan) {
        PlanOutcome::Skipped => Ok(Seq::empty()),
        PlanOutcome::Kept(record) => Ok(seq![record]),
        PlanOutcome::Failed(e) => Err(e),
    }
}

/// `records_of_plan` for a fixed category.
pub open spec fn each_plan(category: Seq<char>) -> spec_fn(Json) -> Result<
    Seq<PlanView>,
    RefreshError,
> {
    |plan: Json| records_of_plan(category, plan)
}

/// The records of one sub-category: those of its list `plans`.
pub open spec fn records_of_sub_category(category: Seq<char>, sub: Json) -> Result<
    Seq<PlanView>,
    RefreshError,
> {
    match sub.items_at("plans"@) {
        None => Err(RefreshError::PlansMissing),
        Some(plans) => gather(plans, each_plan(category)),
    }
}

/// `records_of_sub_category` for a fixed category.
pub open spec fn each_sub_category(category: Seq<char>) -> spec_fn(Json) -> Result<
    Seq<PlanView>,
    RefreshError,
> {
    |sub: Json| records_of_sub_category(category, sub)
}

/// The records of one category: those of its list `subCategories`, under the
/// label that its member `type` gives.
pub open spec fn records_of_category(category: Json) -> Result<Seq<PlanView>, RefreshError> {
    match category.text_at("type"@) {
        None => Err(RefreshError::CategoryTypeMissing),
        Some(label) => match category.items_at("subCategories"@) {
            None => Err(RefreshError::SubCategoriesMissing),
            Some(subs) => gather(subs, each_sub_category(label)),
        },
    }
}

/// `records_of_category` as a function value.
pub open spec fn each_category() -> spec_fn(Json) -> Result<Seq<PlanView>, RefreshError> {
    |category: Json| records_of_category(category)
}

/// The records of a whole document: those of its list `planCategories`.
pub open spec fn catalogue(doc: Json) -> Result<Seq<PlanView>, RefreshError> {
    match doc.items_at("planCategories"@) {
        None => Err(RefreshError::CategoriesMissing),
        Some(categories) => gather(categories, each_category()),
    }
}

/// A failure among the first `k` elements is the failure of the whole list.
pub proof fn lemma_gather_failure_sticks(
    items: Seq<Json>,
    each: spec_fn(Json) -> Result<Seq<PlanView>, RefreshError>,
    k: int,
)
    requires
        0 <= k <= items.len(),
        gather(items.take(k), each) is Err,
    ensures
        gather(items, each) == gather(items.take(k), each),
    decreases items.len(),
{
    if k == items.len() {
        assert(items.take(k) =~= items);
    } else {
        assert(items.drop_last().take(k) =~= items.take(k));
        lemma_gather_failure_sticks(items.drop_last(), each, k);
    }
}

/// The records of the first `k + 1` elements are those of the first `k`,
/// followed by those of element `k`.
pub proof fn lemma_gather_step(
    items: Seq<Json>,
    each: spec_fn(Json) -> Result<Seq<PlanView>, RefreshError>,
    k: int,
)
    requires
        0 <= k < items.len(),
    ensures
        gather(items.take(k + 1), each) == match gather(items.take(k), each) {
            Err(e) => Err::<Seq<PlanView>, RefreshError>(e),
            Ok(found) => match each(items[k]) {
                Err(e) => Err(e),
                Ok(more) => Ok(found + more),
            },
        },
{
    assert(items.take(k + 1).drop_last() =~= items.take(k));
    assert(items.take(k + 1).last() == items[k]);
}

/// A plan whose name's first token begins with an excluded marker yields no
/// record, whatever its other members hold.
pub proof fn lemma_excluded_name_yields_no_record(category: Seq<char>, plan: Json)
    requires
        plan.text_at("planName"@) matches Some(name) && is_excluded_name(name),
    ensures
        !(plan_outcome(category, plan) is Kept),
{
}

/// A plan with no details, no entry for its data allowance, or an empty one,
/// yields no record.
pub proof fn lemma_no_data_yields_no_record(category: Seq<char>, plan: Json)
    requires
        plan_details(plan) matches Some(details) ==> detail_value(
            details,
            "Total data"@,
            true,
        ).len() == 0,
    ensures
        !(plan_outcome(category, plan) is Kept),
{
}

/// Whether `plan` gets as far as its numbers and they read as numbers: it has
/// details, a name that is not excluded, an amount and a data allowance that
/// is not empty, and price, validity and data allowance are `readable`.
pub open spec fn has_readable_numbers(plan: Json) -> bool {
    &&& plan_details(plan) matches Some(details)
    &&& plan.text_at("planName"@) matches Some(name)
    &&& !is_excluded_name(name)
    &&& plan.text_at("amount"@) matches Some(price)
    &&& detail_value(details, "Total data"@, true).len() > 0
    &&& readable(
        price,
        detail_value(details, "Pack validity"@, true),
        detail_value(details, "Total data"@, true),
    )
}

/// Whether the price of `plan` is above zero.
pub open spec fn has_positive_price(plan: Json) -> bool {
    plan.text_at("amount"@) matches Some(price) && amount_of(price) matches Some(p) && p.num > 0
}

/// A plan whose numbers read as numbers fails with `DescriptionMissing` when
/// it has no description, whatever the numbers are. With a description and a
/// price above zero it is kept, also where its validity or its data
/// allowance is zero.
pub proof fn lemma_readable_plan_is_kept(category: Seq<char>, plan: Json)
    requires
        has_readable_numbers(plan),
    ensures
        plan.text_at("description"@) is None ==> plan_outcome(category, plan)
            == PlanOutcome::Failed(RefreshError::DescriptionMissing),
        plan.text_at("description"@) is Some && has_positive_price(plan) ==> plan_outcome(
            category,
            plan,
        ) is Kept,
        plan.text_at("description"@) is Some && !(plan_outcome(category, plan) is Kept)
            ==> plan_outcome(category, plan) == PlanOutcome::Failed(
            RefreshError::PlanStructureMissing,
        ) && !has_positive_price(plan),
{
}

/// What holds of every record that is kept: its name carries no excluded
/// marker, its data allowance is not empty, and its numbers and metrics are
/// those of its own texts.
pub open spec fn is_publishable(record: PlanView) -> bool {
    &&& !is_excluded_name(record.name)
    &&& record.total_data.len() > 0
    &&& record.measured_from_texts()
}

/// Whether every record of `found` satisfies `property`.
pub open spec fn all_records(found: Seq<PlanView>, property: spec_fn(PlanView) -> bool) -> bool {
    forall|i: int| 0 <= i < found.len() ==> property(#[trigger] found[i])
}

/// Whether every record of a successful `result` satisfies `property`.
pub open spec fn gives_only(
    result: Result<Seq<PlanView>, RefreshError>,
    property: spec_fn(PlanView) -> bool,
) -> bool {
    match result {
        Ok(found) => all_records(found, property),
        Err(_) => true,
    }
}

/// What holds of every record that `each` gives for an element holds of
/// every record gathered from a list of elements.
pub proof fn lemma_gather_all(
    items: Seq<Json>,
    each: spec_fn(Json) -> Result<Seq<PlanView>, RefreshError>,
    property: spec_fn(PlanView) -> bool,
)
    requires
        forall|item: Json| gives_only(#[trigger] each(item), property),
    ensures
        gives_only(gather(items, each), property),
    decreases items.len(),
{
    if items.len() > 0 {
        lemma_gather_all(items.drop_last(), each, property);
        if let Ok(found) = gather(items.drop_last(), each) {
            assert(gives_only(each(items.last()), property));
            if let Ok(more) = each(items.last()) {
                assert forall|i: int| 0 <= i < (found + more).len() implies property(
                    #[trigger] (found + more)[i],
                ) by {
                    if i < found.len() {
                        assert((found + more)[i] == found[i]);
                    } else {
                        assert((found + more)[i] == more[i - found.len()]);
                    }
                }
            }
        }
    }
}

/// Every record kept from a plan element is publishable.
pub proof fn lemma_kept_is_publishable(category: Seq<char>, plan: Json)
    ensures
        plan_outcome(category, plan) matches PlanOutcome::Kept(record) ==> is_publishable(record),
{
}

/// `is_publishable` as a function value.
pub open spec fn publishable() -> spec_fn(PlanView) -> bool {
    |record: PlanView| is_publishable(record)
}

/// Every record of a catalogue is publishable: no excluded name and no empty
/// data allowance reaches the list, and every metric is the quotient of the
/// record's own numbers.
pub proof fn lemma_catalogue_is_publishable(doc: Json)
    ensures
        catalogue(doc) matches Ok(found) ==> forall|i: int|
            0 <= i < found.len() ==> is_publishable(#[trigger] found[i]),
{
    let property = publishable();
    assert forall|category: Seq<char>, plan: Json|
        gives_only(#[trigger] records_of_plan(category, plan), property) by {
        lemma_kept_is_publishable(category, plan);
    }
    assert forall|category: Seq<char>, sub: Json|
        gives_only(#[trigger] records_of_sub_category(category, sub), property) by {
        if let Some(plans) = sub.items_at("plans"@) {
            assert forall|plan: Json| gives_only(#[trigger] each_plan(category)(plan), property) by {
                assert(each_plan(category)(plan) == records_of_plan(category, plan));
            }
            lemma_gather_all(plans, each_plan(category), property);
        }
    }
    assert forall|category: Json|
        gives_only(#[trigger] records_of_category(category), property) by {
        if let Some(label) = category.text_at("type"@) {
            if let Some(subs) = category.items_at("subCategories"@) {
                assert forall|sub: Json|
                    gives_only(#[trigger] each_sub_category(label)(sub), property) by {
                    assert(each_sub_category(label)(sub) == records_of_sub_category(label, sub));
                }
                lemma_gather_all(subs, each_sub_category(label), property);
            }
        }
    }
    if let Some(categories) = doc.items_at("planCategories"@) {
        assert forall|category: Json| gives_only(#[trigger] each_category()(category), property) by {
            assert(each_category()(category) == records_of_category(category));
        }
        lemma_gather_all(categories, each_category(), property);
        if let Ok(found) = catalogue(doc) {
            assert forall|i: int| 0 <= i < found.len() implies is_publishable(
                #[trigger] found[i],
            ) by {
                assert(property(found[i]));
            }
        }
    }
}

/// A document without a list of plan categories has no catalogue: the
/// extraction fails with `CategoriesMissing`.
pub proof fn lemma_categories_missing(doc: Json)
    requires
        doc.items_at("planCategories"@) is None,
    ensures
        catalogue(doc) == Err::<Seq<PlanView>, RefreshError>(RefreshError::CategoriesMissing),
{
}

/// Extraction is a function of the document: two results for one document
/// fail alike or hold the same records in the same order.
pub proof fn lemma_extraction_is_repeatable(
    doc: Json,
    first: Result<Vec<PlanRecord>, RefreshError>,
    second: Result<Vec<PlanRecord>, RefreshError>,
)
    requires
        reports(first, catalogue(doc)),
        reports(second, catalogue(doc)),
    ensures
        match (first, second) {
            (Ok(a), Ok(b)) => views(a@) == views(b@),
            (Err(e1), Err(e2)) => e1 == e2,
            _ => false,
        },
{
}

/// Looks a keyed descriptive field up: scans `details` from the front for
/// the entry whose header is `key` and returns its value, reduced to its
/// first whitespace-delimited token if `first_token_only`. Empty when no
/// entry has that header.
pub fn get_misc_details_from_data_map(details: &Vec<Json>, key: &str, first_token_only: bool) -> (r:
    String)
    ensures
        r@ == detail_value(details@, key@, first_token_only),
{
    let mut i: usize = 0;
    assert(details@.skip(0) =~= details@);
    while i < details.len()
        invariant
            i <= details.len(),
            detail_value(details@, key@, first_token_only) == detail_value(
                details@.skip(i as int),
                key@,
                first_token_only,
            ),
        decreases details.len() - i,
    {
        assert(details@.skip(i as int)[0] == details@[i as int]);
        assert(details@.skip(i as int).drop_first() =~= details@.skip(i + 1));
        let matches_key: bool = match details[i].get_str("header") {
            Some(header) => same_text(header, key),
            None => false,
        };
        if matches_key {
            return match details[i].get_str("value") {
                Some(value) => if first_token_only {
                    first_token_of(value)
                } else {
                    String::from_str(value)
                },
                None => {
                    assert(first_token(Seq::<char>::empty()) =~= Seq::<char>::empty());
                    String::new()
                },
            };
        }
        i += 1;
    }
    String::new()
}

/// Extracts one plan element of a category labelled `category`.
pub fn parse_plan(category: &str, plan: &Json) -> (r: Result<Option<PlanRecord>, RefreshError>)
    ensures
        match r {
            Ok(Some(record)) => plan_outcome(category@, *plan) == PlanOutcome::Kept(record@),
            Ok(None) => plan_outcome(category@, *plan) == PlanOutcome::Skipped,
            Err(e) => plan_outcome(category@, *plan) == PlanOutcome::Failed(e),
        },
{
    let misc: &Json = match plan.get("misc") {
        Some(m) => m,
        None => {
            return Err(RefreshError::PlanStructureMissing);
        },
    };
    let details: &Vec<Json> = match misc.get_array("details") {
        Some(d) => d,
        None => {
            return Err(RefreshError::PlanStructureMissing);
        },
    };
    let name: &str = match plan.get_str("planName") {
        Some(n) => n,
        None => {
            return Err(RefreshError::PlanStructureMissing);
        },
    };
    let token: String = first_token_of(name);
    if starts_with(token.as_str(), "JP") || starts_with(token.as_str(), "JB") {
        return Ok(None);
    }
    let price: &str = match plan.get_str("amount") {
        Some(a) => a,
        None => {
            return Err(RefreshError::PlanStructureMissing);
        },
    };
    let validity: String = get_misc_details_from_data_map(details, "Pack validity", true);
    let total_data: String = get_misc_details_from_data_map(details, "Total data", true);
    if total_data.as_str().unicode_len() == 0 {
        return Ok(None);
    }
    if !PlanRecord::texts_are_readable(price, validity.as_str(), total_data.as_str()) {
        return Err(RefreshError::PlanStructureMissing);
    }
    let description: &str = match plan.get_str("description") {
        Some(d) => d,
        None => {
            return Err(RefreshError::DescriptionMissing);
        },
    };
    let speed: String = get_misc_details_from_data_map(details, "Data at high speed*", false);
    let voice: String = get_misc_details_from_data_map(details, "Voice", false);
    let call_available: bool = voice.as_str().unicode_len() != 0;
    let made: Option<PlanRecord> = PlanRecord::new(
        String::from_str(category),
        String::from_str(name),
        String::from_str(price),
        validity,
        total_data,
        String::from_str(description),
        speed,
        call_available,
    );
    match made {
        None => Err(RefreshError::PlanStructureMissing),
        Some(record) => Ok(Some(record)),
    }
}

/// Extracts the plans of one list, in order.
pub fn parse_plan_list(category: &str, plans: &Vec<Json>) -> (r: Result<
    Vec<PlanRecord>,
    RefreshError,
>)
    ensures
        reports(r, gather(plans@, each_plan(category@))),
{
    let mut found: Vec<PlanRecord> = Vec::new();
    let mut i: usize = 0;
    assert(views(found@) =~= Seq::<PlanView>::empty());
    while i < plans.len()
        invariant
            i <= plans.len(),
            gather(plans@.take(i as int), each_plan(category@)) == Ok::<
                Seq<PlanView>,
                RefreshError,
            >(views(found@)),
        decreases plans.len() - i,
    {
        proof {
            lemma_gather_step(plans@, each_plan(category@), i as int);
        }
        match parse_plan(category, &plans[i]) {
            Err(e) => {
                proof {
                    lemma_gather_failure_sticks(plans@, each_plan(category@), i + 1);
                }
                return Err(e);
            },
            Ok(None) => {
                assert(views(found@) + Seq::<PlanView>::empty() =~= views(found@));
            },
            Ok(Some(record)) => {
                assert(views(found@) + seq![record@] =~= views(found@.push(record)));
                found.push(record);
            },
        }
        i += 1;
    }
    assert(plans@.take(plans.len() as int) =~= plans@);
    Ok(found)
}

/// Extracts the plans of one sub-category.
pub fn parse_sub_category(category: &str, sub: &Json) -> (r: Result<Vec<PlanRecord>, RefreshError>)
    ensures
        reports(r, records_of_sub_category(category@, *sub)),
{
    match sub.get_array("plans") {
        None => Err(RefreshError::PlansMissing),
        Some(plans) => parse_plan_list(category, plans),
    }
}

/// Extracts the plans of the sub-categories of one list, in order.
pub fn parse_sub_category_list(category: &str, subs: &Vec<Json>) -> (r: Result<
    Vec<PlanRecord>,
    RefreshError,
>)
    ensures
        reports(r, gather(subs@, each_sub_category(category@))),
{
    let mut found: Vec<PlanRecord> = Vec::new();
    let mut i: usize = 0;
    assert(views(found@) =~= Seq::<PlanView>::empty());
    while i < subs.len()
        invariant
            i <= subs.len(),
            gather(subs@.take(i as int), each_sub_category(category@)) == Ok::<
                Seq<PlanView>,
                RefreshError,
            >(views(found@)),
        decreases subs.len() - i,
    {
        proof {
            lemma_gather_step(subs@, each_sub_category(category@), i as int);
        }
        match parse_sub_category(category, &subs[i]) {
            Err(e) => {
                proof {
                    lemma_gather_failure_sticks(subs@, each_sub_category(category@), i + 1);
                }
                return Err(e);
            },
            Ok(more) => {
                let mut more = more;
                assert(views(found@) + views(more@) =~= views(found@ + more@));
                found.append(&mut more);
            },
        }
        i += 1;
    }
    assert(subs@.take(subs.len() as int) =~= subs@);
    Ok(found)
}

/// Extracts the plans of one category.
pub fn parse_category(category: &Json) -> (r: Result<Vec<PlanRecord>, RefreshError>)
    ensures
        reports(r, records_of_category(*category)),
{
    let label: &str = match category.get_str("type") {
        Some(t) => t,
        None => {
            return Err(RefreshError::CategoryTypeMissing);
        },
    };
    match category.get_array("subCategories") {
        None => Err(RefreshError::SubCategoriesMissing),
        Some(subs) => parse_sub_category_list(label, subs),
    }
}

/// Extracts the plans of the categories of one list, in order.
pub fn parse_category_list(categories: &Vec<Json>) -> (r: Result<Vec<PlanRecord>, RefreshError>)
    ensures
        reports(r, gather(categories@, each_category())),
{
    let mut found: Vec<PlanRecord> = Vec::new();
    let mut i: usize = 0;
    assert(views(found@) =~= Seq::<PlanView>::empty());
    while i < categories.len()
        invariant
            i <= categories.len(),
            gather(categories@.take(i as int), each_category()) == Ok::<
                Seq<PlanView>,
                RefreshError,
            >(views(found@)),
        decreases categories.len() - i,
    {
        proof {
            lemma_gather_step(categories@, each_category(), i as int);
        }
        match parse_category(&categories[i]) {
            Err(e) => {
                proof {
                    lemma_gather_failure_sticks(categories@, each_category(), i + 1);
                }
                return Err(e);
            },
            Ok(more) => {
                let mut more = more;
                assert(views(found@) + views(more@) =~= views(found@ + more@));
                found.append(&mut more);
            },
        }
        i += 1;
    }
    assert(categories@.take(categories.len() as int) =~= categories@);
    Ok(found)
}

/// Extracts the plan records of a catalogue document, in document order.
///
/// Fails with the kind of the first malformed element; plans whose name
/// carries an excluded marker, and plans without a data allowance, are left
/// out without failing.
pub fn parse_jio_data(doc: &Json) -> (r: Result<Vec<PlanRecord>, RefreshError>)
    ensures
        reports(r, catalogue(*doc)),
{
    match doc.get_array("planCategories") {
        None => Err(RefreshError::CategoriesMissing),
        Some(categories) => parse_category_list(categories),
    }
}

} // verus!
