//! The plan record, its derived metrics and its sort order.

use vstd::prelude::*;
use vstd::string::*;
use crate::number::{amount_of, lemma_amount_text_not_empty, lemma_infinite_ranks_last, count_of, lemma_amount_of_is_amount, lemma_amounts_divisible, lemma_ratio_rank_consistent, parse_amount, parse_count, Ratio};
use crate::order::{consistent, lemma_chain_consistent, Rank};
use crate::text::{
    excerpt, excerpt_of, lemma_text_rank_consistent, lemma_text_rank_flip, lemma_text_rank_same,
    rank_texts, text_rank,
};

verus! {

/// How many characters of a description are shown.
pub const DESCRIPTION_SHOWN: usize = 45;

/// What a plan record holds, as mathematical values.
pub struct PlanView {
    /// Display name.
    pub name: Seq<char>,
    /// Total cost, as decimal text.
    pub price: Seq<char>,
    /// The amount that `price` stands for.
    pub price_value: Ratio,
    /// Cost per day of validity.
    pub price_per_day: Ratio,
    /// Cost per gigabyte of data.
    pub price_per_gb: Ratio,
    /// Speed-cap description; may be empty.
    pub data_at_high_speed: Seq<char>,
    /// Days of validity, as text of digits.
    pub validity: Seq<char>,
    /// The number that `validity` stands for.
    pub validity_days: u32,
    /// Free text.
    pub description: Seq<char>,
    /// Whether voice calling is bundled.
    pub call_available: bool,
    /// Label of the top-level category.
    pub category: Seq<char>,
    /// Data allowance in gigabytes, as decimal text.
    pub total_data: Seq<char>,
}

/// Plans with calling sort before plans without.
pub open spec fn calling_rank(a: bool, b: bool) -> Rank {
    if a == b {
        Rank::Same
    } else if a {
        Rank::Before
    } else {
        Rank::After
    }
}

/// A number of days as a ratio.
pub open spec fn days_ratio(days: u32) -> Ratio {
    Ratio { num: days as u64, den: 1 }
}

/// Whether the three numbers of a plan read as numbers: price and data
/// allowance as amounts, validity as a whole number.
pub open spec fn readable(price: Seq<char>, validity: Seq<char>, total_data: Seq<char>) -> bool {
    amount_of(price) is Some && amount_of(total_data) is Some && count_of(validity) is Some
}

/// The record that the given texts make. Price per day is price over days of
/// validity and price per gigabyte is price over data allowance; a positive
/// price over zero is the infinite ratio. `None` unless the three numbers
/// are `readable` and both metrics are values: a price of zero over zero days
/// or over no data has no metric.
pub open spec fn measured(
    category: Seq<char>,
    name: Seq<char>,
    price: Seq<char>,
    validity: Seq<char>,
    total_data: Seq<char>,
    description: Seq<char>,
    data_at_high_speed: Seq<char>,
    call_available: bool,
) -> Option<PlanView> {
    match (amount_of(price), amount_of(total_data), count_of(validity)) {
        (Some(p), Some(d), Some(v)) => if p.num > 0 || (d.num > 0 && v > 0) {
            Some(
                PlanView {
                    name,
                    price,
                    price_value: p,
                    price_per_day: Ratio::quotient(p, days_ratio(v)),
                    price_per_gb: Ratio::quotient(p, d),
                    data_at_high_speed,
                    validity,
                    validity_days: v,
                    description,
                    call_available,
                    category,
                    total_data,
                },
            )
        } else {
            None
        },
        _ => None,
    }
}

/// The text of a truth value.
pub open spec fn flag_text(flag: bool) -> Seq<char> {
    if flag {
        "true"@
    } else {
        "false"@
    }
}

/// The line that shows a record: its fields behind their labels, the
/// description cut down to `DESCRIPTION_SHOWN` characters. `per_day` and
/// `per_gb` are the decimal renderings of the two metrics.
pub open spec fn line_of(p: PlanView, per_day: Seq<char>, per_gb: Seq<char>) -> Seq<char> {
    "Category: "@ + p.category + " | Name: "@ + p.name + " | Price: "@ + p.price
        + " | Price per day: "@ + per_day + " | Price per GB: "@ + per_gb
        + " | Data at high speed: "@ + p.data_at_high_speed + " | Total Data : "@ + p.total_data
        + " | Validity: "@ + p.validity + " | Description: "@ + excerpt(
        p.description,
        DESCRIPTION_SHOWN as nat,
    ) + " | Call Available: "@ + flag_text(p.call_available) + " <br/> <br/>"@
}

impl PlanView {
    /// The record with empty texts, no calling and metrics of zero.
    pub open spec fn blank() -> PlanView {
        PlanView {
            name: Seq::empty(),
            price: Seq::empty(),
            price_value: Ratio { num: 0, den: 1 },
            price_per_day: Ratio { num: 0, den: 1 },
            price_per_gb: Ratio { num: 0, den: 1 },
            data_at_high_speed: Seq::empty(),
            validity: Seq::empty(),
            validity_days: 0,
            description: Seq::empty(),
            call_available: false,
            category: Seq::empty(),
            total_data: Seq::empty(),
        }
    }

    /// The price and the two metrics are values: none is zero over zero.
    pub open spec fn wf(self) -> bool {
        self.price_value.wf() && self.price_per_day.wf() && self.price_per_gb.wf()
    }

    /// The record was made from its own texts: the numbers are what the texts
    /// stand for, and the metrics are the quotients of those numbers.
    pub open spec fn measured_from_texts(self) -> bool {
        measured(
            self.category,
            self.name,
            self.price,
            self.validity,
            self.total_data,
            self.description,
            self.data_at_high_speed,
            self.call_available,
        ) == Some(self)
    }

    /// The sort order: calling first, then ascending by price per day, price
    /// per gigabyte, price, days of validity and name, each key deciding only
    /// where all earlier ones tie.
    pub open spec fn rank(self, other: PlanView) -> Rank {
        calling_rank(self.call_available, other.call_available).chain(
            self.price_per_day.rank(other.price_per_day).chain(
                self.price_per_gb.rank(other.price_per_gb).chain(
                    self.price_value.rank(other.price_value).chain(
                        Rank::of_ints(self.validity_days as int, other.validity_days as int).chain(
                            text_rank(self.name, other.name),
                        ),
                    ),
                ),
            ),
        )
    }

    /// Whether the two records agree in every key of the sort order.
    pub open spec fn ties_with(self, other: PlanView) -> bool {
        &&& self.call_available == other.call_available
        &&& self.price_per_day.rank(other.price_per_day) == Rank::Same
        &&& self.price_per_gb.rank(other.price_per_gb) == Rank::Same
        &&& self.price_value.rank(other.price_value) == Rank::Same
        &&& self.validity_days == other.validity_days
        &&& self.name == other.name
    }
}

/// Exchanging two records flips their rank.
pub proof fn lemma_rank_flip(a: PlanView, b: PlanView)
    ensures
        b.rank(a) == a.rank(b).flip(),
{
    lemma_text_rank_flip(a.name, b.name);
}

/// Two records rank the same exactly when they agree in every key of the
/// sort order.
pub proof fn lemma_rank_same_is_tie(a: PlanView, b: PlanView)
    ensures
        a.rank(b) == Rank::Same <==> a.ties_with(b),
{
    lemma_text_rank_same(a.name, b.name);
}

/// The sort order separates any two records in exactly one way: the first
/// sorts before the second, or they agree in every compared key, or the
/// second sorts before the first.
pub proof fn lemma_rank_trichotomy(a: PlanView, b: PlanView)
    ensures
        a.rank(b) == Rank::Before || a.ties_with(b) || b.rank(a) == Rank::Before,
        !(a.rank(b) == Rank::Before && a.ties_with(b)),
        !(a.rank(b) == Rank::Before && b.rank(a) == Rank::Before),
        !(a.ties_with(b) && b.rank(a) == Rank::Before),
{
    lemma_rank_flip(a, b);
    lemma_rank_same_is_tie(a, b);
}

/// On well-formed records the sort order is a total preorder over the whole
/// chain of keys.
pub proof fn lemma_rank_consistent(a: PlanView, b: PlanView, c: PlanView)
    requires
        a.wf(),
        b.wf(),
        c.wf(),
    ensures
        consistent(a.rank(b), b.rank(c), a.rank(c)),
{
    lemma_ratio_rank_consistent(a.price_per_day, b.price_per_day, c.price_per_day);
    lemma_ratio_rank_consistent(a.price_per_gb, b.price_per_gb, c.price_per_gb);
    lemma_ratio_rank_consistent(a.price_value, b.price_value, c.price_value);
    lemma_text_rank_consistent(a.name, b.name, c.name);
    let (x6, y6, z6) = (
        text_rank(a.name, b.name),
        text_rank(b.name, c.name),
        text_rank(a.name, c.name),
    );
    let (x5, y5, z5) = (
        Rank::of_ints(a.validity_days as int, b.validity_days as int),
        Rank::of_ints(b.validity_days as int, c.validity_days as int),
        Rank::of_ints(a.validity_days as int, c.validity_days as int),
    );
    let (x4, y4, z4) = (
        a.price_value.rank(b.price_value),
        b.price_value.rank(c.price_value),
        a.price_value.rank(c.price_value),
    );
    let (x3, y3, z3) = (
        a.price_per_gb.rank(b.price_per_gb),
        b.price_per_gb.rank(c.price_per_gb),
        a.price_per_gb.rank(c.price_per_gb),
    );
    let (x2, y2, z2) = (
        a.price_per_day.rank(b.price_per_day),
        b.price_per_day.rank(c.price_per_day),
        a.price_per_day.rank(c.price_per_day),
    );
    let (x1, y1, z1) = (
        calling_rank(a.call_available, b.call_available),
        calling_rank(b.call_available, c.call_available),
        calling_rank(a.call_available, c.call_available),
    );
    lemma_chain_consistent(x5, y5, z5, x6, y6, z6);
    lemma_chain_consistent(x4, y4, z4, x5.chain(x6), y5.chain(y6), z5.chain(z6));
    lemma_chain_consistent(
        x3,
        y3,
        z3,
        x4.chain(x5.chain(x6)),
        y4.chain(y5.chain(y6)),
        z4.chain(z5.chain(z6)),
    );
    lemma_chain_consistent(
        x2,
        y2,
        z2,
        x3.chain(x4.chain(x5.chain(x6))),
        y3.chain(y4.chain(y5.chain(y6))),
        z3.chain(z4.chain(z5.chain(z6))),
    );
    lemma_chain_consistent(
        x1,
        y1,
        z1,
        x2.chain(x3.chain(x4.chain(x5.chain(x6)))),
        y2.chain(y3.chain(y4.chain(y5.chain(y6)))),
        z2.chain(z3.chain(z4.chain(z5.chain(z6)))),
    );
}

/// On well-formed records "sorts before" is transitive.
pub proof fn lemma_rank_transitive(a: PlanView, b: PlanView, c: PlanView)
    requires
        a.wf(),
        b.wf(),
        c.wf(),
        a.rank(b) == Rank::Before,
        b.rank(c) == Rank::Before,
    ensures
        a.rank(c) == Rank::Before,
{
    lemma_rank_consistent(a, b, c);
}

/// Where two records agree in calling, price per day, price per gigabyte and
/// price, the one with fewer days of validity sorts first; where the days
/// agree too, the one with the lexicographically smaller name sorts first.
pub proof fn lemma_tie_break(a: PlanView, b: PlanView)
    requires
        a.call_available == b.call_available,
        a.price_per_day.rank(b.price_per_day) == Rank::Same,
        a.price_per_gb.rank(b.price_per_gb) == Rank::Same,
        a.price_value.rank(b.price_value) == Rank::Same,
    ensures
        a.validity_days < b.validity_days ==> a.rank(b) == Rank::Before,
        a.validity_days > b.validity_days ==> a.rank(b) == Rank::After,
        a.validity_days == b.validity_days ==> a.rank(b) == text_rank(a.name, b.name),
{
}

/// The metrics of a record made from its texts are exact quotients: price
/// per day times the days of validity is the price, and price per gigabyte
/// times the data allowance is the price. A metric is infinite exactly when
/// its divisor is zero.
pub proof fn lemma_metrics_are_quotients(p: PlanView)
    requires
        p.measured_from_texts(),
    ensures
        p.wf(),
        p.price_value.den > 0,
        amount_of(p.price) == Some(p.price_value),
        count_of(p.validity) == Some(p.validity_days),
        p.price_per_day.is_quotient_of(p.price_value, days_ratio(p.validity_days)),
        p.price_per_day.is_infinite() <==> p.validity_days == 0,
        amount_of(p.total_data) matches Some(data) && p.price_per_gb.is_quotient_of(
            p.price_value,
            data,
        ) && (p.price_per_gb.is_infinite() <==> data.num == 0),
        p.price.len() > 0,
        p.validity.len() > 0,
        p.total_data.len() > 0,
{
    let data = amount_of(p.total_data).unwrap();
    lemma_amount_of_is_amount(p.price);
    lemma_amount_of_is_amount(p.total_data);
    lemma_amounts_divisible(p.price_value, data);
    lemma_amounts_divisible(p.price_value, days_ratio(p.validity_days));
    lemma_amount_text_not_empty(p.price);
    lemma_amount_text_not_empty(p.total_data);
}

/// Among records that agree in calling, one with no days of validity sorts
/// after every one with days: its price per day is infinite.
pub proof fn lemma_no_validity_sorts_last(a: PlanView, b: PlanView)
    requires
        a.measured_from_texts(),
        b.measured_from_texts(),
        a.call_available == b.call_available,
        a.validity_days == 0,
        b.validity_days > 0,
    ensures
        a.rank(b) == Rank::After,
        b.rank(a) == Rank::Before,
{
    lemma_metrics_are_quotients(a);
    lemma_metrics_are_quotients(b);
    lemma_infinite_ranks_last(a.price_per_day, b.price_per_day);
    lemma_rank_flip(a, b);
}

/// Among records that agree in calling and in price per day, one with a data
/// allowance of zero sorts after every one with data: its price per gigabyte
/// is infinite.
pub proof fn lemma_no_data_sorts_last(a: PlanView, b: PlanView)
    requires
        a.measured_from_texts(),
        b.measured_from_texts(),
        a.call_available == b.call_available,
        a.price_per_day.rank(b.price_per_day) == Rank::Same,
        a.price_per_gb.is_infinite(),
        !b.price_per_gb.is_infinite(),
    ensures
        a.rank(b) == Rank::After,
        b.rank(a) == Rank::Before,
{
    lemma_metrics_are_quotients(a);
    lemma_metrics_are_quotients(b);
    lemma_infinite_ranks_last(a.price_per_gb, b.price_per_gb);
    lemma_rank_flip(a, b);
}

/// One sellable plan.
#[derive(Debug, PartialEq, Eq)]
pub struct PlanRecord {
    name: String,
    price: String,
    price_value: Ratio,
    price_per_day: Ratio,
    price_per_gb: Ratio,
    data_at_high_speed: String,
    validity: String,
    validity_days: u32,
    description: String,
    call_available: bool,
    category: String,
    total_data: String,
}

impl View for PlanRecord {
    type V = PlanView;

    closed spec fn view(&self) -> PlanView {
        PlanView {
            name: self.name@,
            price: self.price@,
            price_value: self.price_value,
            price_per_day: self.price_per_day,
            price_per_gb: self.price_per_gb,
            data_at_high_speed: self.data_at_high_speed@,
            validity: self.validity@,
            validity_days: self.validity_days,
            description: self.description@,
            call_available: self.call_available,
            category: self.category@,
            total_data: self.total_data@,
        }
    }
}

impl Clone for PlanRecord {
    /// A record with the same view.
    fn clone(&self) -> (r: PlanRecord)
        ensures
            r@ == self@,
    {
        proof {
            use_type_invariant(self);
        }
        PlanRecord {
            name: self.name.clone(),
            price: self.price.clone(),
            price_value: self.price_value,
            price_per_day: self.price_per_day,
            price_per_gb: self.price_per_gb,
            data_at_high_speed: self.data_at_high_speed.clone(),
            validity: self.validity.clone(),
            validity_days: self.validity_days,
            description: self.description.clone(),
            call_available: self.call_available,
            category: self.category.clone(),
            total_data: self.total_data.clone(),
        }
    }
}

impl Default for PlanRecord {
    /// The blank record.
    fn default() -> (r: PlanRecord)
        ensures
            r@ == PlanView::blank(),
    {
        PlanRecord {
            name: String::new(),
            price: String::new(),
            price_value: Ratio { num: 0, den: 1 },
            price_per_day: Ratio { num: 0, den: 1 },
            price_per_gb: Ratio { num: 0, den: 1 },
            data_at_high_speed: String::new(),
            validity: String::new(),
            validity_days: 0,
            description: String::new(),
            call_available: false,
            category: String::new(),
            total_data: String::new(),
        }
    }
}

impl PlanRecord {
    /// What holds of every record there is: its price and metrics are
    /// values, and it is blank or was made from its own texts, so that its
    /// numbers are what the texts stand for and its metrics are their
    /// quotients.
    #[verifier::type_invariant]
    pub open spec fn well_formed(&self) -> bool {
        self@.wf() && (self@.measured_from_texts() || self@ == PlanView::blank())
    }

    /// Makes a record from the texts of one plan and computes its metrics:
    /// price per day is price over validity, price per gigabyte is price over
    /// data allowance, infinite where a positive price stands over zero.
    /// `None` when a text does not read as a number, or the price is zero
    /// over zero days or over no data.
    pub fn new(
        category: String,
        name: String,
        price: String,
        validity: String,
        total_data: String,
        description: String,
        data_at_high_speed: String,
        call_available: bool,
    ) -> (r: Option<PlanRecord>)
        ensures
            match r {
                Some(p) => measured(
                    category@,
                    name@,
                    price@,
                    validity@,
                    total_data@,
                    description@,
                    data_at_high_speed@,
                    call_available,
                ) == Some(p@),
                None => measured(
                    category@,
                    name@,
                    price@,
                    validity@,
                    total_data@,
                    description@,
                    data_at_high_speed@,
                    call_available,
                ) is None,
            },
    {
        let price_value: Ratio = match parse_amount(price.as_str()) {
            Some(v) => v,
            None => {
                return None;
            },
        };
        let data_value: Ratio = match parse_amount(total_data.as_str()) {
            Some(v) => v,
            None => {
                return None;
            },
        };
        let validity_days: u32 = match parse_count(validity.as_str()) {
            Some(v) => v,
            None => {
                return None;
            },
        };
        proof {
            lemma_amount_of_is_amount(price@);
            lemma_amount_of_is_amount(total_data@);
            lemma_amounts_divisible(price_value, data_value);
            lemma_amounts_divisible(price_value, days_ratio(validity_days));
        }
        let price_per_gb: Ratio = match Ratio::divide(price_value, data_value) {
            Some(q) => q,
            None => {
                return None;
            },
        };
        let price_per_day: Ratio = match Ratio::divide(price_value, Ratio::whole(validity_days)) {
            Some(q) => q,
            None => {
                return None;
            },
        };
        Some(
            PlanRecord {
                name,
                price,
                price_value,
                price_per_day,
                price_per_gb,
                data_at_high_speed,
                validity,
                validity_days,
                description,
                call_available,
                category,
                total_data,
            },
        )
    }

    /// Decides whether the three numbers of a plan read as numbers.
    pub fn texts_are_readable(price: &str, validity: &str, total_data: &str) -> (r: bool)
        ensures
            r == readable(price@, validity@, total_data@),
    {
        parse_amount(price).is_some() && parse_amount(total_data).is_some() && parse_count(
            validity,
        ).is_some()
    }

    /// Display name.
    pub fn name(&self) -> (r: &str)
        ensures
            r@ == self@.name,
    {
        self.name.as_str()
    }

    /// Total cost, as the text it was given in.
    pub fn price(&self) -> (r: &str)
        ensures
            r@ == self@.price,
    {
        self.price.as_str()
    }

    /// The amount that the price stands for.
    pub fn price_value(&self) -> (r: Ratio)
        ensures
            r == self@.price_value,
    {
        self.price_value
    }

    /// Cost per day of validity.
    pub fn price_per_day(&self) -> (r: Ratio)
        ensures
            r == self@.price_per_day,
    {
        self.price_per_day
    }

    /// Cost per gigabyte of data.
    pub fn price_per_gb(&self) -> (r: Ratio)
        ensures
            r == self@.price_per_gb,
    {
        self.price_per_gb
    }

    /// Speed-cap description.
    pub fn data_at_high_speed(&self) -> (r: &str)
        ensures
            r@ == self@.data_at_high_speed,
    {
        self.data_at_high_speed.as_str()
    }

    /// Days of validity, as the text it was given in.
    pub fn validity(&self) -> (r: &str)
        ensures
            r@ == self@.validity,
    {
        self.validity.as_str()
    }

    /// Days of validity.
    pub fn validity_days(&self) -> (r: u32)
        ensures
            r == self@.validity_days,
    {
        self.validity_days
    }

    /// Free-text description.
    pub fn description(&self) -> (r: &str)
        ensures
            r@ == self@.description,
    {
        self.description.as_str()
    }

    /// The description cut down to the characters that are shown.
    pub fn description_shown(&self) -> (r: String)
        ensures
            r@ == excerpt(self@.description, DESCRIPTION_SHOWN as nat),
    {
        excerpt_of(self.description.as_str(), DESCRIPTION_SHOWN)
    }

    /// Renders the record as one line of the page. The decimal renderings of
    /// the two metrics are the caller's: they are floating-point text, which
    /// this library does not produce.
    pub fn render_line(&self, per_day: &str, per_gb: &str) -> (line: String)
        ensures
            line@ == line_of(self@, per_day@, per_gb@),
    {
        let mut line: String = String::from_str("Category: ");
        line.append(self.category.as_str());
        line.append(" | Name: ");
        line.append(self.name.as_str());
        line.append(" | Price: ");
        line.append(self.price.as_str());
        line.append(" | Price per day: ");
        line.append(per_day);
        line.append(" | Price per GB: ");
        line.append(per_gb);
        line.append(" | Data at high speed: ");
        line.append(self.data_at_high_speed.as_str());
        line.append(" | Total Data : ");
        line.append(self.total_data.as_str());
        line.append(" | Validity: ");
        line.append(self.validity.as_str());
        line.append(" | Description: ");
        let shown: String = self.description_shown();
        line.append(shown.as_str());
        line.append(" | Call Available: ");
        if self.call_available {
            line.append("true");
        } else {
            line.append("false");
        }
        line.append(" <br/> <br/>");
        line
    }

    /// Whether voice calling is bundled.
    pub fn call_available(&self) -> (r: bool)
        ensures
            r == self@.call_available,
    {
        self.call_available
    }

    /// Label of the top-level category.
    pub fn category(&self) -> (r: &str)
        ensures
            r@ == self@.category,
    {
        self.category.as_str()
    }

    /// Data allowance in gigabytes, as the text it was given in.
    pub fn total_data(&self) -> (r: &str)
        ensures
            r@ == self@.total_data,
    {
        self.total_data.as_str()
    }

    /// Where this record stands relative to `other` in the sort order.
    pub fn rank_against(&self, other: &PlanRecord) -> (r: Rank)
        ensures
            r == self@.rank(other@),
    {
        if self.call_available != other.call_available {
            return if self.call_available {
                Rank::Before
            } else {
                Rank::After
            };
        }
        let by_day: Rank = self.price_per_day.rank_against(&other.price_per_day);
        if by_day != Rank::Same {
            return by_day;
        }
        let by_gb: Rank = self.price_per_gb.rank_against(&other.price_per_gb);
        if by_gb != Rank::Same {
            return by_gb;
        }
        let by_price: Rank = self.price_value.rank_against(&other.price_value);
        if by_price != Rank::Same {
            return by_price;
        }
        if self.validity_days < other.validity_days {
            return Rank::Before;
        }
        if self.validity_days > other.validity_days {
            return Rank::After;
        }
        rank_texts(self.name.as_str(), other.name.as_str())
    }

    /// Whether this record sorts strictly before `other`.
    pub fn precedes(&self, other: &PlanRecord) -> (r: bool)
        ensures
            r == (self@.rank(other@) == Rank::Before),
    {
        self.rank_against(other) == Rank::Before
    }
}

} // verus!
