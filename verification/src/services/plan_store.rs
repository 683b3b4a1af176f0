//! The project plan document: its Markdown grammar, its rendering, and the edits the
//! plan tools make to it.
//!
//! Reading and writing the plan file happen at the caller, which hands the text in and
//! writes the rendered text back.

use vstd::prelude::*;

use crate::errors::{error_kind_of, error_message_of, AlfredError, ErrorKind};
use crate::text::{
    push_char, decimal_chars, is_unicode_decimal, unicode_decimal, push_decimal, lemma_first_index_of, ascii_lower_chars, ascii_lower_seq, chars_eq, chars_of, find_char, first_index_of,
    int_error_text, is_space, is_whitespace, join_range, join_with, leading_space, lines_of,
    parse_unsigned, parse_unsigned_spec, slice_chars, split_chars, split_lines, split_on, strip_cr,
    starts_with, starts_with_spec, string_of, trim_chars, trim_matches_char, trim_matches_spec,
    trim_spec, views_of, IntErrorKind,
};

verus! {

broadcast use vstd::string::group_string_axioms;

// ---------------------------------------------------------------------------
// Plan items
// ---------------------------------------------------------------------------

/// Canonical plan item status values.
#[derive(Debug, Clone, Copy, PartialEq, Eq, Structural)]
pub enum PlanStatus {
    Planned,
    InProgress,
    Completed,
    Cancelled,
}

/// Canonical project plan item schema.
#[derive(Debug, Clone)]
pub struct PlanItem {
    pub id: u64,
    pub title: String,
    pub priority: u8,
    pub cards: Vec<String>,
    pub description: String,
    pub deliverables: Vec<String>,
    pub acceptance_criteria: Option<String>,
    pub notes: Option<String>,
    pub status: PlanStatus,
}

/// The content of a plan item.
pub struct ItemModel {
    pub id: u64,
    pub title: Seq<char>,
    pub priority: u8,
    pub cards: Seq<Seq<char>>,
    pub description: Seq<char>,
    pub deliverables: Seq<Seq<char>>,
    pub acceptance_criteria: Option<Seq<char>>,
    pub notes: Option<Seq<char>>,
    pub status: PlanStatus,
}

/// The views of a list of strings.
pub open spec fn texts(v: Seq<String>) -> Seq<Seq<char>> {
    v.map_values(|s: String| s@)
}

/// The content of an optional string.
pub open spec fn opt_view(v: Option<String>) -> Option<Seq<char>> {
    match v {
        Some(s) => Some(s@),
        None => None,
    }
}

impl View for PlanItem {
    type V = ItemModel;

    open spec fn view(&self) -> ItemModel {
        ItemModel {
            id: self.id,
            title: self.title@,
            priority: self.priority,
            cards: texts(self.cards@),
            description: self.description@,
            deliverables: texts(self.deliverables@),
            acceptance_criteria: opt_view(self.acceptance_criteria),
            notes: opt_view(self.notes),
            status: self.status,
        }
    }
}

/// The contents of a list of plan items.
pub open spec fn item_views(v: Seq<PlanItem>) -> Seq<ItemModel> {
    v.map_values(|i: PlanItem| i@)
}

/// The status keyword a plan file uses.
pub open spec fn status_text(s: PlanStatus) -> Seq<char> {
    match s {
        PlanStatus::Planned => "planned"@,
        PlanStatus::InProgress => "in-progress"@,
        PlanStatus::Completed => "completed"@,
        PlanStatus::Cancelled => "cancelled"@,
    }
}

/// Renders a status keyword.
pub fn render_status(status: &PlanStatus) -> (s: &'static str)
    ensures
        s@ == status_text(*status),
{
    match status {
        PlanStatus::Planned => "planned",
        PlanStatus::InProgress => "in-progress",
        PlanStatus::Completed => "completed",
        PlanStatus::Cancelled => "cancelled",
    }
}

/// The status a keyword names, compared trimmed and without ASCII case.
pub open spec fn status_of(raw: Seq<char>) -> Option<PlanStatus> {
    let k = ascii_lower_seq(trim_spec(raw));
    if k == "planned"@ {
        Some(PlanStatus::Planned)
    } else if k == "in-progress"@ {
        Some(PlanStatus::InProgress)
    } else if k == "completed"@ {
        Some(PlanStatus::Completed)
    } else if k == "cancelled"@ {
        Some(PlanStatus::Cancelled)
    } else {
        None
    }
}

/// Parses a status keyword; an unknown one is returned, trimmed and lower-cased, as the
/// error.
pub fn parse_status(raw: &[char]) -> (r: Result<PlanStatus, Vec<char>>)
    ensures
        match status_of(raw@) {
            Some(s) => r == Ok::<PlanStatus, Vec<char>>(s),
            None => r is Err && r->Err_0@ == ascii_lower_seq(trim_spec(raw@)),
        },
{
    let k = ascii_lower_chars(trim_chars(raw).as_slice());
    if chars_eq(k.as_slice(), chars_of("planned").as_slice()) {
        Ok(PlanStatus::Planned)
    } else if chars_eq(k.as_slice(), chars_of("in-progress").as_slice()) {
        Ok(PlanStatus::InProgress)
    } else if chars_eq(k.as_slice(), chars_of("completed").as_slice()) {
        Ok(PlanStatus::Completed)
    } else if chars_eq(k.as_slice(), chars_of("cancelled").as_slice()) {
        Ok(PlanStatus::Cancelled)
    } else {
        Err(k)
    }
}

/// A trimmed value, absent when blank.
pub open spec fn non_empty(value: Seq<char>) -> Option<Seq<char>> {
    if trim_spec(value).len() == 0 {
        None
    } else {
        Some(trim_spec(value))
    }
}

/// Trims a value and drops it when blank.
pub fn non_empty_option(value: &[char]) -> (r: Option<Vec<char>>)
    ensures
        match non_empty(value@) {
            Some(t) => r is Some && r->0@ == t,
            None => r is None,
        },
{
    let t = trim_chars(value);
    if t.len() == 0 {
        None
    } else {
        Some(t)
    }
}

/// One card token: trimmed, then stripped of surrounding `"` and then of `'`.
pub open spec fn card_token(raw: Seq<char>) -> Seq<char> {
    trim_matches_spec(trim_matches_spec(trim_spec(raw), '"'), '\'')
}

/// The non-empty entries of a list.
pub open spec fn non_empty_entries(s: Seq<Seq<char>>) -> Seq<Seq<char>>
    decreases s.len(),
{
    if s.len() == 0 {
        s
    } else if s.last().len() == 0 {
        non_empty_entries(s.drop_last())
    } else {
        non_empty_entries(s.drop_last()).push(s.last())
    }
}

/// The cards a `Cards:` value lists: comma-separated tokens, unquoted, blanks dropped.
pub open spec fn cards_of(raw: Seq<char>) -> Seq<Seq<char>> {
    non_empty_entries(split_on(raw, ',').map_values(|t: Seq<char>| card_token(t)))
}

/// Parses the value of a `Cards:` field.
pub fn parse_cards(raw: &[char]) -> (r: Vec<Vec<char>>)
    ensures
        views_of(r@) == cards_of(raw@),
{
    let tokens = split_chars(raw, ',');
    let ghost mapped = split_on(raw@, ',').map_values(|t: Seq<char>| card_token(t));
    let mut out: Vec<Vec<char>> = Vec::new();
    let mut i: usize = 0;
    while i < tokens.len()
        invariant
            i <= tokens.len(),
            views_of(tokens@) == split_on(raw@, ','),
            mapped == split_on(raw@, ',').map_values(|t: Seq<char>| card_token(t)),
            views_of(out@) == non_empty_entries(mapped.take(i as int)),
        decreases tokens.len() - i,
    {
        let a = trim_chars(tokens[i].as_slice());
        let b = trim_matches_char(a.as_slice(), '"');
        let c = trim_matches_char(b.as_slice(), '\'');
        proof {
            assert(views_of(tokens@)[i as int] == tokens@[i as int]@);
            assert(mapped[i as int] == c@);
            assert(mapped.take(i + 1).drop_last() =~= mapped.take(i as int));
            assert(mapped.take(i + 1).last() == c@);
        }
        if c.len() > 0 {
            let ghost before = out@;
            out.push(c);
            assert(views_of(out@) =~= views_of(before).push(mapped[i as int]));
        }
        i = i + 1;
    }
    assert(mapped.take(tokens.len() as int) =~= mapped);
    out
}

// ---------------------------------------------------------------------------
// Validation
// ---------------------------------------------------------------------------

/// Why a plan item is not acceptable.
#[derive(Debug, Clone, Copy, PartialEq, Eq, Structural)]
pub enum ItemProblem {
    IdZero,
    TitleEmpty,
    PriorityOutOfRange,
    CardEmpty,
    DescriptionEmpty,
    NoDeliverables,
    DeliverableEmpty,
}

/// The message of an item problem.
pub open spec fn problem_text(p: ItemProblem) -> Seq<char> {
    match p {
        ItemProblem::IdZero => "id must be greater than 0"@,
        ItemProblem::TitleEmpty => "title must not be empty"@,
        ItemProblem::PriorityOutOfRange => "priority must be between 0 and 3"@,
        ItemProblem::CardEmpty => "cards must not contain empty values"@,
        ItemProblem::DescriptionEmpty => "description must not be empty"@,
        ItemProblem::NoDeliverables => "deliverables must contain at least one item"@,
        ItemProblem::DeliverableEmpty => "deliverables must not contain empty values"@,
    }
}

impl ItemProblem {
    /// The message of this problem.
    pub fn message(&self) -> (s: &'static str)
        ensures
            s@ == problem_text(*self),
    {
        match self {
            ItemProblem::IdZero => "id must be greater than 0",
            ItemProblem::TitleEmpty => "title must not be empty",
            ItemProblem::PriorityOutOfRange => "priority must be between 0 and 3",
            ItemProblem::CardEmpty => "cards must not contain empty values",
            ItemProblem::DescriptionEmpty => "description must not be empty",
            ItemProblem::NoDeliverables => "deliverables must contain at least one item",
            ItemProblem::DeliverableEmpty => "deliverables must not contain empty values",
        }
    }
}

/// Whether some entry is blank once trimmed.
pub open spec fn has_blank(s: Seq<Seq<char>>) -> bool {
    exists|i: int| 0 <= i < s.len() && trim_spec(#[trigger] s[i]).len() == 0
}

/// The first problem of an item's fields, checked in the order the plan tools report them
/// (the id is not checked).
pub open spec fn common_problem(item: ItemModel) -> Option<ItemProblem> {
    if trim_spec(item.title).len() == 0 {
        Some(ItemProblem::TitleEmpty)
    } else if item.priority > 3 {
        Some(ItemProblem::PriorityOutOfRange)
    } else if has_blank(item.cards) {
        Some(ItemProblem::CardEmpty)
    } else if trim_spec(item.description).len() == 0 {
        Some(ItemProblem::DescriptionEmpty)
    } else if item.deliverables.len() == 0 {
        Some(ItemProblem::NoDeliverables)
    } else if has_blank(item.deliverables) {
        Some(ItemProblem::DeliverableEmpty)
    } else {
        None
    }
}

/// The first problem of a stored item: a zero id, then the field problems.
pub open spec fn item_problem(item: ItemModel) -> Option<ItemProblem> {
    if item.id == 0 {
        Some(ItemProblem::IdZero)
    } else {
        common_problem(item)
    }
}

fn any_blank(v: &Vec<String>) -> (r: bool)
    ensures
        r == has_blank(texts(v@)),
{
    let mut i: usize = 0;
    while i < v.len()
        invariant
            i <= v.len(),
            forall|j: int| 0 <= j < i ==> trim_spec(#[trigger] texts(v@)[j]).len() > 0,
        decreases v.len() - i,
    {
        let t = trim_chars(chars_of(v[i].as_str()).as_slice());
        assert(texts(v@)[i as int] == v@[i as int]@);
        if t.len() == 0 {
            return true;
        }
        i = i + 1;
    }
    false
}

/// Checks the fields of an item (not its id).
pub fn validate_item_common(item: &PlanItem) -> (r: Result<(), ItemProblem>)
    ensures
        match common_problem(item@) {
            Some(p) => r == Err::<(), ItemProblem>(p),
            None => r is Ok,
        },
{
    if trim_chars(chars_of(item.title.as_str()).as_slice()).len() == 0 {
        return Err(ItemProblem::TitleEmpty);
    }
    if item.priority > 3 {
        return Err(ItemProblem::PriorityOutOfRange);
    }
    if any_blank(&item.cards) {
        return Err(ItemProblem::CardEmpty);
    }
    if trim_chars(chars_of(item.description.as_str()).as_slice()).len() == 0 {
        return Err(ItemProblem::DescriptionEmpty);
    }
    if item.deliverables.len() == 0 {
        return Err(ItemProblem::NoDeliverables);
    }
    if any_blank(&item.deliverables) {
        return Err(ItemProblem::DeliverableEmpty);
    }
    Ok(())
}

/// Checks a stored item: a positive id and valid fields.
pub fn validate_item(item: &PlanItem) -> (r: Result<(), ItemProblem>)
    ensures
        match item_problem(item@) {
            Some(p) => r == Err::<(), ItemProblem>(p),
            None => r is Ok,
        },
{
    if item.id == 0 {
        return Err(ItemProblem::IdZero);
    }
    validate_item_common(item)
}

/// Checks an item about to be added (its id is assigned by the store).
pub fn validate_item_for_add(item: &PlanItem) -> (r: Result<(), ItemProblem>)
    ensures
        match common_problem(item@) {
            Some(p) => r == Err::<(), ItemProblem>(p),
            None => r is Ok,
        },
{
    validate_item_common(item)
}

// ---------------------------------------------------------------------------
// The plan grammar
// ---------------------------------------------------------------------------

/// Why a plan file did not parse.
#[derive(Debug)]
pub enum PlanParseError {
    EmptyBlock,
    InvalidHeading { line: String },
    InvalidId { kind: IntErrorKind },
    InvalidDeliverableLine { id: u64, line: String },
    InvalidFieldIndentation { id: u64, line: String },
    InvalidField { id: u64, line: String },
    InvalidPriority { id: u64, kind: IntErrorKind },
    UnknownField { id: u64, key: String },
    InvalidStatus { value: String },
    MissingPriority { id: u64 },
    MissingCards { id: u64 },
    MissingDescription { id: u64 },
    InvalidItem { problem: ItemProblem },
    DuplicateId { id: u64 },
}

/// The content of a plan parse error.
pub enum ParseErrorModel {
    EmptyBlock,
    InvalidHeading(Seq<char>),
    InvalidId(IntErrorKind),
    InvalidDeliverableLine(u64, Seq<char>),
    InvalidFieldIndentation(u64, Seq<char>),
    InvalidField(u64, Seq<char>),
    InvalidPriority(u64, IntErrorKind),
    UnknownField(u64, Seq<char>),
    InvalidStatus(Seq<char>),
    MissingPriority(u64),
    MissingCards(u64),
    MissingDescription(u64),
    InvalidItem(ItemProblem),
    DuplicateId(u64),
}

impl View for PlanParseError {
    type V = ParseErrorModel;

    open spec fn view(&self) -> ParseErrorModel {
        match self {
            PlanParseError::EmptyBlock => ParseErrorModel::EmptyBlock,
            PlanParseError::InvalidHeading { line } => ParseErrorModel::InvalidHeading(line@),
            PlanParseError::InvalidId { kind } => ParseErrorModel::InvalidId(*kind),
            PlanParseError::InvalidDeliverableLine { id, line } => ParseErrorModel::InvalidDeliverableLine(*id, line@),
            PlanParseError::InvalidFieldIndentation { id, line } => ParseErrorModel::InvalidFieldIndentation(*id, line@),
            PlanParseError::InvalidField { id, line } => ParseErrorModel::InvalidField(*id, line@),
            PlanParseError::InvalidPriority { id, kind } => ParseErrorModel::InvalidPriority(*id, *kind),
            PlanParseError::UnknownField { id, key } => ParseErrorModel::UnknownField(*id, key@),
            PlanParseError::InvalidStatus { value } => ParseErrorModel::InvalidStatus(value@),
            PlanParseError::MissingPriority { id } => ParseErrorModel::MissingPriority(*id),
            PlanParseError::MissingCards { id } => ParseErrorModel::MissingCards(*id),
            PlanParseError::MissingDescription { id } => ParseErrorModel::MissingDescription(*id),
            PlanParseError::InvalidItem { problem } => ParseErrorModel::InvalidItem(*problem),
            PlanParseError::DuplicateId { id } => ParseErrorModel::DuplicateId(*id),
        }
    }
}

/// The number of leading decimal digits (`\d`: Unicode `Nd`) of `s`.
pub open spec fn digit_run(s: Seq<char>) -> nat
    decreases s.len(),
{
    if s.len() > 0 && unicode_decimal(s[0]) {
        1 + digit_run(s.drop_first())
    } else {
        0
    }
}

/// An item heading `<digits>. [<mark>] <title>` (the pattern
/// `^(\d+)\.\s+\[( |x|X)\]\s+(.+)$`, where `\d` is a Unicode decimal digit): its digits,
/// its mark and the text after the closing bracket.
pub open spec fn heading_parts(line: Seq<char>) -> Option<(Seq<char>, char, Seq<char>)> {
    let k = digit_run(line) as int;
    if k == 0 || k >= line.len() || line[k] != '.' {
        None
    } else {
        let after = line.skip(k + 1);
        let w = leading_space(after) as int;
        if w == 0 || w + 3 > after.len() {
            None
        } else if after[w] != '[' || !(after[w + 1] == ' ' || after[w + 1] == 'x' || after[w + 1]
            == 'X') || after[w + 2] != ']' {
            None
        } else {
            let rest = after.skip(w + 3);
            if rest.len() >= 2 && is_space(rest[0]) {
                Some((line.take(k), after[w + 1], rest))
            } else {
                None
            }
        }
    }
}

proof fn lemma_digit_run(s: Seq<char>)
    ensures
        digit_run(s) <= s.len(),
        forall|i: int| 0 <= i < digit_run(s) ==> unicode_decimal(#[trigger] s[i]),
        digit_run(s) < s.len() ==> !unicode_decimal(s[digit_run(s) as int]),
    decreases s.len(),
{
    if s.len() > 0 && unicode_decimal(s[0]) {
        lemma_digit_run(s.drop_first());
        assert forall|i: int| 0 <= i < digit_run(s) implies unicode_decimal(#[trigger] s[i]) by {
            if i > 0 {
                assert(s[i] == s.drop_first()[i - 1]);
            }
        }
    }
}

proof fn lemma_leading_space(s: Seq<char>)
    ensures
        leading_space(s) <= s.len(),
        forall|i: int| 0 <= i < leading_space(s) ==> is_space(#[trigger] s[i]),
        leading_space(s) < s.len() ==> !is_space(s[leading_space(s) as int]),
    decreases s.len(),
{
    if s.len() > 0 && is_space(s[0]) {
        lemma_leading_space(s.drop_first());
        assert forall|i: int| 0 <= i < leading_space(s) implies is_space(#[trigger] s[i]) by {
            if i > 0 {
                assert(s[i] == s.drop_first()[i - 1]);
            }
        }
    }
}

/// The parts of a recognized item heading.
pub struct Heading {
    pub digits: Vec<char>,
    pub mark: char,
    pub rest: Vec<char>,
}

proof fn lemma_digit_run_at_least(s: Seq<char>, m: int)
    requires
        0 <= m <= s.len(),
        forall|i: int| 0 <= i < m ==> unicode_decimal(#[trigger] s[i]),
    ensures
        digit_run(s) >= m,
    decreases m,
{
    if m > 0 {
        assert forall|i: int| 0 <= i < m - 1 implies unicode_decimal(#[trigger] s.drop_first()[i]) by {
            assert(s.drop_first()[i] == s[i + 1]);
        }
        lemma_digit_run_at_least(s.drop_first(), m - 1);
    }
}

proof fn lemma_leading_space_at_least(s: Seq<char>, m: int)
    requires
        0 <= m <= s.len(),
        forall|i: int| 0 <= i < m ==> is_space(#[trigger] s[i]),
    ensures
        leading_space(s) >= m,
    decreases m,
{
    if m > 0 {
        assert forall|i: int| 0 <= i < m - 1 implies is_space(#[trigger] s.drop_first()[i]) by {
            assert(s.drop_first()[i] == s[i + 1]);
        }
        lemma_leading_space_at_least(s.drop_first(), m - 1);
    }
}

/// Recognizes an item heading.
pub fn match_heading(line: &[char]) -> (r: Option<Heading>)
    ensures
        match heading_parts(line@) {
            Some((d, m, rest)) => r is Some && r->0.digits@ == d && r->0.mark == m && r->0.rest@
                == rest,
            None => r is None,
        },
{
    proof {
        lemma_digit_run(line@);
    }
    let n = line.len();
    let mut k: usize = 0;
    while k < n && is_unicode_decimal(line[k])
        invariant
            k <= n == line@.len(),
            forall|i: int| 0 <= i < k ==> unicode_decimal(#[trigger] line@[i]),
            k <= digit_run(line@),
        decreases n - k,
    {
        k = k + 1;
        proof {
            lemma_digit_run_at_least(line@, k as int);
        }
    }
    assert(k == digit_run(line@));
    if k == 0 || k >= n || line[k] != '.' {
        return None;
    }
    let ghost after = line@.skip(k + 1);
    proof {
        lemma_leading_space(after);
    }
    let mut j = k + 1;
    while j < n && is_whitespace(line[j])
        invariant
            k + 1 <= j <= n == line@.len(),
            after == line@.skip(k + 1),
            forall|i: int| k + 1 <= i < j ==> is_space(#[trigger] line@[i]),
            j - (k + 1) <= leading_space(after),
        decreases n - j,
    {
        assert(after[j - (k + 1)] == line@[j as int]);
        j = j + 1;
        proof {
            assert forall|i: int| 0 <= i < j - (k + 1) implies is_space(#[trigger] after[i]) by {
                assert(after[i] == line@[i + k + 1]);
            }
            lemma_leading_space_at_least(after, j - (k + 1));
        }
    }
    let w = j - (k + 1);
    proof {
        if w < leading_space(after) {
            assert(after[w as int] == line@[j as int]);
        }
    }
    assert(w == leading_space(after));
    if w == 0 || n - j < 3 {
        return None;
    }
    assert(after[w as int] == line@[j as int]);
    assert(after[w + 1] == line@[j + 1]);
    assert(after[w + 2] == line@[j + 2]);
    let mark = line[j + 1];
    if line[j] != '[' || !(mark == ' ' || mark == 'x' || mark == 'X') || line[j + 2] != ']' {
        return None;
    }
    let rest = slice_chars(line, j + 3, n);
    assert(rest@ =~= after.skip(w + 3));
    if rest.len() >= 2 && is_whitespace(rest[0]) {
        let digits = slice_chars(line, 0, k);
        assert(digits@ =~= line@.take(k as int));
        Some(Heading { digits, mark, rest })
    } else {
        None
    }
}

/// The indentation of a field line.
pub open spec fn field_prefix() -> Seq<char> {
    seq![' ', ' ', ' ', ' ', '-', ' ']
}

/// The indentation of a deliverable line.
pub open spec fn deliverable_prefix() -> Seq<char> {
    seq![' ', ' ', ' ', ' ', ' ', ' ', ' ', ' ', '-', ' ']
}

/// The fields read so far from an item's lines.
pub struct FieldsModel {
    pub priority: Option<u8>,
    pub cards: Option<Seq<Seq<char>>>,
    pub description: Option<Seq<char>>,
    pub deliverables: Seq<Seq<char>>,
    pub acceptance_criteria: Option<Seq<char>>,
    pub notes: Option<Seq<char>>,
    pub status: Option<PlanStatus>,
    pub in_deliverables: bool,
}

/// No field read yet.
pub open spec fn no_fields() -> FieldsModel {
    FieldsModel {
        priority: None,
        cards: None,
        description: None,
        deliverables: Seq::empty(),
        acceptance_criteria: None,
        notes: None,
        status: None,
        in_deliverables: false,
    }
}

/// One `    - Key: value` line of item `id` read into the fields.
pub open spec fn field_line(id: u64, st: FieldsModel, line: Seq<char>) -> Result<
    FieldsModel,
    ParseErrorModel,
> {
    if !starts_with_spec(line, field_prefix()) {
        Err(ParseErrorModel::InvalidFieldIndentation(id, line))
    } else {
        let body = line.skip(6);
        if ascii_lower_seq(body) == ascii_lower_seq("Deliverables:"@) {
            Ok(FieldsModel { in_deliverables: true, ..st })
        } else {
            match first_index_of(body, ':') {
                None => Err(ParseErrorModel::InvalidField(id, line)),
                Some(c) => {
                    let raw_key = body.take(c);
                    let key = ascii_lower_seq(trim_spec(raw_key));
                    let value = trim_spec(body.skip(c + 1));
                    if key == "priority"@ {
                        match parse_unsigned_spec(value, 255) {
                            Ok(p) => Ok(FieldsModel { priority: Some(p as u8), ..st }),
                            Err(k) => Err(ParseErrorModel::InvalidPriority(id, k)),
                        }
                    } else if key == "cards"@ {
                        Ok(FieldsModel { cards: Some(cards_of(value)), ..st })
                    } else if key == "description"@ {
                        Ok(FieldsModel { description: Some(value), ..st })
                    } else if key == "acceptance criteria"@ {
                        Ok(FieldsModel { acceptance_criteria: non_empty(value), ..st })
                    } else if key == "notes"@ {
                        Ok(FieldsModel { notes: non_empty(value), ..st })
                    } else if key == "status"@ {
                        match status_of(value) {
                            Some(s) => Ok(FieldsModel { status: Some(s), ..st }),
                            None => Err(
                                ParseErrorModel::InvalidStatus(ascii_lower_seq(trim_spec(value))),
                            ),
                        }
                    } else {
                        Err(ParseErrorModel::UnknownField(id, raw_key))
                    }
                },
            }
        }
    }
}

/// One line after an item heading read into the fields: blank lines are skipped,
/// deliverable lines extend the list while it is open, and anything else is a field.
pub open spec fn field_step(id: u64, st: FieldsModel, line: Seq<char>) -> Result<
    FieldsModel,
    ParseErrorModel,
> {
    if trim_spec(line).len() == 0 {
        Ok(st)
    } else if st.in_deliverables && starts_with_spec(line, deliverable_prefix()) {
        Ok(FieldsModel { deliverables: st.deliverables.push(trim_spec(line.skip(10))), ..st })
    } else if st.in_deliverables && !starts_with_spec(line, field_prefix()) {
        Err(ParseErrorModel::InvalidDeliverableLine(id, line))
    } else {
        field_line(id, FieldsModel { in_deliverables: false, ..st }, line)
    }
}

/// All lines of an item body read into the fields, stopping at the first error.
pub open spec fn fold_fields(id: u64, st: FieldsModel, lines: Seq<Seq<char>>) -> Result<
    FieldsModel,
    ParseErrorModel,
>
    decreases lines.len(),
{
    if lines.len() == 0 {
        Ok(st)
    } else {
        match field_step(id, st, lines[0]) {
            Err(e) => Err(e),
            Ok(next) => fold_fields(id, next, lines.drop_first()),
        }
    }
}

/// The item an item block describes.
pub open spec fn parse_item_spec(block: Seq<Seq<char>>) -> Result<ItemModel, ParseErrorModel> {
    if block.len() == 0 {
        Err(ParseErrorModel::EmptyBlock)
    } else {
        match heading_parts(block[0]) {
            None => Err(ParseErrorModel::InvalidHeading(block[0])),
            Some((digits, mark, rest)) => match parse_unsigned_spec(digits, u64::MAX as int) {
                Err(k) => Err(ParseErrorModel::InvalidId(k)),
                Ok(n) => {
                    let id = n as u64;
                    match fold_fields(id, no_fields(), block.drop_first()) {
                        Err(e) => Err(e),
                        Ok(f) => {
                            let status = match f.status {
                                Some(s) => s,
                                None => if mark == 'x' || mark == 'X' {
                                    PlanStatus::Completed
                                } else {
                                    PlanStatus::Planned
                                },
                            };
                            if f.priority is None {
                                Err(ParseErrorModel::MissingPriority(id))
                            } else if f.cards is None {
                                Err(ParseErrorModel::MissingCards(id))
                            } else if f.description is None {
                                Err(ParseErrorModel::MissingDescription(id))
                            } else {
                                let item = ItemModel {
                                    id,
                                    title: trim_spec(rest),
                                    priority: f.priority->0,
                                    cards: f.cards->0,
                                    description: f.description->0,
                                    deliverables: f.deliverables,
                                    acceptance_criteria: f.acceptance_criteria,
                                    notes: f.notes,
                                    status,
                                };
                                match item_problem(item) {
                                    Some(p) => Err(ParseErrorModel::InvalidItem(p)),
                                    None => Ok(item),
                                }
                            }
                        },
                    }
                },
            },
        }
    }
}

/// The fields read so far, as values.
struct Fields {
    priority: Option<u8>,
    cards: Option<Vec<Vec<char>>>,
    description: Option<Vec<char>>,
    deliverables: Vec<Vec<char>>,
    acceptance_criteria: Option<Vec<char>>,
    notes: Option<Vec<char>>,
    status: Option<PlanStatus>,
    in_deliverables: bool,
}

/// The content of an optional character vector.
pub open spec fn opt_chars(v: Option<Vec<char>>) -> Option<Seq<char>> {
    match v {
        Some(x) => Some(x@),
        None => None,
    }
}

spec fn fields_view(f: Fields) -> FieldsModel {
    FieldsModel {
        priority: f.priority,
        cards: match f.cards {
            Some(c) => Some(views_of(c@)),
            None => None,
        },
        description: opt_chars(f.description),
        deliverables: views_of(f.deliverables@),
        acceptance_criteria: opt_chars(f.acceptance_criteria),
        notes: opt_chars(f.notes),
        status: f.status,
        in_deliverables: f.in_deliverables,
    }
}

fn keyword_is(key: &Vec<char>, word: &str) -> (r: bool)
    ensures
        r == (key@ == word@),
{
    chars_eq(key.as_slice(), chars_of(word).as_slice())
}

fn parse_field_line(id: u64, st: Fields, line: &Vec<char>) -> (r: Result<Fields, PlanParseError>)
    ensures
        match field_line(id, fields_view(st), line@) {
            Ok(m) => r is Ok && fields_view(r->Ok_0) == m,
            Err(e) => r is Err && r->Err_0@ == e,
        },
{
    let prefix = chars_of("    - ");
    proof {
        reveal_strlit("    - ");
    }
    assert(prefix@ =~= field_prefix());
    if !starts_with(line.as_slice(), prefix.as_slice()) {
        return Err(PlanParseError::InvalidFieldIndentation { id, line: string_of(line.as_slice()) });
    }
    let body = slice_chars(line.as_slice(), 6, line.len());
    assert(body@ =~= line@.skip(6));
    let lowered = ascii_lower_chars(body.as_slice());
    let heading = ascii_lower_chars(chars_of("Deliverables:").as_slice());
    if chars_eq(lowered.as_slice(), heading.as_slice()) {
        let mut st = st;
        st.in_deliverables = true;
        return Ok(st);
    }
    let colon = match find_char(body.as_slice(), ':') {
        None => {
            return Err(PlanParseError::InvalidField { id, line: string_of(line.as_slice()) });
        },
        Some(c) => c,
    };
    proof {
        lemma_first_index_of(body@, ':');
    }
    let raw_key = slice_chars(body.as_slice(), 0, colon);
    assert(raw_key@ =~= body@.take(colon as int));
    let key = ascii_lower_chars(trim_chars(raw_key.as_slice()).as_slice());
    let raw_value = slice_chars(body.as_slice(), colon + 1, body.len());
    assert(raw_value@ =~= body@.skip(colon + 1));
    let value = trim_chars(raw_value.as_slice());
    let mut st = st;
    if keyword_is(&key, "priority") {
        match parse_unsigned(value.as_slice(), 255) {
            Ok(p) => {
                st.priority = Some(p as u8);
                Ok(st)
            },
            Err(kind) => Err(PlanParseError::InvalidPriority { id, kind }),
        }
    } else if keyword_is(&key, "cards") {
        st.cards = Some(parse_cards(value.as_slice()));
        Ok(st)
    } else if keyword_is(&key, "description") {
        st.description = Some(value);
        Ok(st)
    } else if keyword_is(&key, "acceptance criteria") {
        st.acceptance_criteria = non_empty_option(value.as_slice());
        Ok(st)
    } else if keyword_is(&key, "notes") {
        st.notes = non_empty_option(value.as_slice());
        Ok(st)
    } else if keyword_is(&key, "status") {
        match parse_status(value.as_slice()) {
            Ok(s) => {
                st.status = Some(s);
                Ok(st)
            },
            Err(k) => Err(PlanParseError::InvalidStatus { value: string_of(k.as_slice()) }),
        }
    } else {
        Err(PlanParseError::UnknownField { id, key: string_of(raw_key.as_slice()) })
    }
}

fn parse_field_step(id: u64, st: Fields, line: &Vec<char>) -> (r: Result<Fields, PlanParseError>)
    ensures
        match field_step(id, fields_view(st), line@) {
            Ok(m) => r is Ok && fields_view(r->Ok_0) == m,
            Err(e) => r is Err && r->Err_0@ == e,
        },
{
    if trim_chars(line.as_slice()).len() == 0 {
        return Ok(st);
    }
    let mut st = st;
    if st.in_deliverables {
        let deliverable = chars_of("        - ");
        proof {
            reveal_strlit("        - ");
        }
        assert(deliverable@ =~= deliverable_prefix());
        if starts_with(line.as_slice(), deliverable.as_slice()) {
            let rest = slice_chars(line.as_slice(), 10, line.len());
            assert(rest@ =~= line@.skip(10));
            let ghost before = views_of(st.deliverables@);
            st.deliverables.push(trim_chars(rest.as_slice()));
            assert(views_of(st.deliverables@) =~= before.push(trim_spec(line@.skip(10))));
            return Ok(st);
        }
        let field = chars_of("    - ");
        proof {
            reveal_strlit("    - ");
        }
        assert(field@ =~= field_prefix());
        if !starts_with(line.as_slice(), field.as_slice()) {
            return Err(
                PlanParseError::InvalidDeliverableLine { id, line: string_of(line.as_slice()) },
            );
        }
        st.in_deliverables = false;
    }
    parse_field_line(id, st, line)
}

/// Converts character vectors into strings.
pub fn strings_of(v: Vec<Vec<char>>) -> (r: Vec<String>)
    ensures
        texts(r@) == views_of(v@),
{
    let mut out: Vec<String> = Vec::new();
    let mut i: usize = 0;
    while i < v.len()
        invariant
            i <= v.len(),
            texts(out@) =~= views_of(v@).take(i as int),
        decreases v.len() - i,
    {
        let ghost before = out@;
        out.push(string_of(v[i].as_slice()));
        assert(texts(out@) =~= texts(before).push(v@[i as int]@));
        assert(views_of(v@).take(i + 1) =~= views_of(v@).take(i as int).push(v@[i as int]@));
        i = i + 1;
    }
    assert(views_of(v@).take(v.len() as int) =~= views_of(v@));
    out
}

fn opt_string(v: Option<Vec<char>>) -> (r: Option<String>)
    ensures
        opt_view(r) == opt_chars(v),
{
    match v {
        Some(x) => Some(string_of(x.as_slice())),
        None => None,
    }
}

/// Parses the block `lines[from..to]` of one plan item.
pub fn parse_plan_item(lines: &Vec<Vec<char>>, from: usize, to: usize) -> (r: Result<
    PlanItem,
    PlanParseError,
>)
    requires
        from <= to <= lines.len(),
    ensures
        match parse_item_spec(views_of(lines@).subrange(from as int, to as int)) {
            Ok(m) => r is Ok && r->Ok_0@ == m,
            Err(e) => r is Err && r->Err_0@ == e,
        },
{
    let ghost block = views_of(lines@).subrange(from as int, to as int);
    if from == to {
        return Err(PlanParseError::EmptyBlock);
    }
    assert(block[0] == lines@[from as int]@);
    let heading = match match_heading(lines[from].as_slice()) {
        None => {
            return Err(PlanParseError::InvalidHeading { line: string_of(lines[from].as_slice()) });
        },
        Some(h) => h,
    };
    let id = match parse_unsigned(heading.digits.as_slice(), u64::MAX) {
        Err(kind) => {
            return Err(PlanParseError::InvalidId { kind });
        },
        Ok(n) => n,
    };
    let mut st = Fields {
        priority: None,
        cards: None,
        description: None,
        deliverables: Vec::new(),
        acceptance_criteria: None,
        notes: None,
        status: None,
        in_deliverables: false,
    };
    assert(fields_view(st) == no_fields()) by {
        assert(views_of(st.deliverables@) =~= Seq::<Seq<char>>::empty());
    }
    let mut i = from + 1;
    while i < to
        invariant
            from < i <= to <= lines.len(),
            block == views_of(lines@).subrange(from as int, to as int),
            heading_parts(block[0]) == Some((heading.digits@, heading.mark, heading.rest@)),
            parse_unsigned_spec(heading.digits@, u64::MAX as int) == Ok::<int, IntErrorKind>(
                id as int,
            ),
            fold_fields(id, no_fields(), block.drop_first()) == fold_fields(
                id,
                fields_view(st),
                block.skip(i - from),
            ),
        decreases to - i,
    {
        assert(block.skip(i - from)[0] == lines@[i as int]@);
        assert(block.skip(i - from).drop_first() =~= block.skip(i + 1 - from));
        st = match parse_field_step(id, st, &lines[i]) {
            Err(e) => {
                return Err(e);
            },
            Ok(next) => next,
        };
        i = i + 1;
    }
    assert(block.skip(i - from) =~= Seq::<Seq<char>>::empty());
    assert(block.drop_first() =~= block.skip(1));
    let status = match st.status {
        Some(s) => s,
        None => if heading.mark == 'x' || heading.mark == 'X' {
            PlanStatus::Completed
        } else {
            PlanStatus::Planned
        },
    };
    let priority = match st.priority {
        None => {
            return Err(PlanParseError::MissingPriority { id });
        },
        Some(p) => p,
    };
    let cards = match st.cards {
        None => {
            return Err(PlanParseError::MissingCards { id });
        },
        Some(c) => c,
    };
    let description = match st.description {
        None => {
            return Err(PlanParseError::MissingDescription { id });
        },
        Some(d) => d,
    };
    let item = PlanItem {
        id,
        title: string_of(trim_chars(heading.rest.as_slice()).as_slice()),
        priority,
        cards: strings_of(cards),
        description: string_of(description.as_slice()),
        deliverables: strings_of(st.deliverables),
        acceptance_criteria: opt_string(st.acceptance_criteria),
        notes: opt_string(st.notes),
        status,
    };
    match validate_item(&item) {
        Err(problem) => Err(PlanParseError::InvalidItem { problem }),
        Ok(()) => Ok(item),
    }
}

// ---------------------------------------------------------------------------
// Plan documents
// ---------------------------------------------------------------------------

/// A plan file: the text before the first item, and the items in id order.
#[derive(Debug)]
pub struct PlanDocument {
    pub preamble: String,
    pub items: Vec<PlanItem>,
}

/// The content of a plan document.
pub struct DocumentModel {
    pub preamble: Seq<char>,
    pub items: Seq<ItemModel>,
}

impl View for PlanDocument {
    type V = DocumentModel;

    open spec fn view(&self) -> DocumentModel {
        DocumentModel { preamble: self.preamble@, items: item_views(self.items@) }
    }
}

/// The indices of the lines that are item headings, in order.
pub open spec fn heading_indices(lines: Seq<Seq<char>>) -> Seq<int>
    decreases lines.len(),
{
    if lines.len() == 0 {
        Seq::empty()
    } else if heading_parts(lines.last()) is Some {
        heading_indices(lines.drop_last()).push(lines.len() - 1)
    } else {
        heading_indices(lines.drop_last())
    }
}

/// The lines of the `p`-th item: from its heading to the next heading or the end.
pub open spec fn item_block(lines: Seq<Seq<char>>, starts: Seq<int>, p: int) -> Seq<Seq<char>> {
    lines.subrange(
        starts[p],
        if p + 1 < starts.len() {
            starts[p + 1]
        } else {
            lines.len() as int
        },
    )
}

/// The items of the blocks from the `p`-th on, stopping at the first error.
pub open spec fn parse_blocks(lines: Seq<Seq<char>>, starts: Seq<int>, p: int) -> Result<
    Seq<ItemModel>,
    ParseErrorModel,
>
    decreases starts.len() - p,
{
    if p >= starts.len() || p < 0 {
        Ok(Seq::empty())
    } else {
        match parse_item_spec(item_block(lines, starts, p)) {
            Err(e) => Err(e),
            Ok(item) => match parse_blocks(lines, starts, p + 1) {
                Err(e) => Err(e),
                Ok(rest) => Ok(seq![item] + rest),
            },
        }
    }
}

/// Where a stable insertion puts an item with id `id`: after every item whose id is not
/// larger.
pub open spec fn insert_position(sorted: Seq<ItemModel>, id: u64) -> int
    decreases sorted.len(),
{
    if sorted.len() == 0 {
        0
    } else if sorted.last().id <= id {
        sorted.len() as int
    } else {
        insert_position(sorted.drop_last(), id)
    }
}

/// Items in id order; items with equal ids keep their relative order.
pub open spec fn sort_by_id(items: Seq<ItemModel>) -> Seq<ItemModel>
    decreases items.len(),
{
    if items.len() == 0 {
        items
    } else {
        let rest = sort_by_id(items.drop_last());
        rest.insert(insert_position(rest, items.last().id), items.last())
    }
}

/// The first id that two neighbouring items share.
pub open spec fn first_duplicate(items: Seq<ItemModel>) -> Option<u64>
    decreases items.len(),
{
    if items.len() < 2 {
        None
    } else if items[0].id == items[1].id {
        Some(items[0].id)
    } else {
        first_duplicate(items.drop_first())
    }
}

/// The document a plan file's text describes.
pub open spec fn parse_document_spec(raw: Seq<char>) -> Result<DocumentModel, ParseErrorModel> {
    let lines = lines_of(raw);
    let starts = heading_indices(lines);
    if starts.len() == 0 {
        Ok(DocumentModel { preamble: trim_spec(raw), items: Seq::empty() })
    } else {
        match parse_blocks(lines, starts, 0) {
            Err(e) => Err(e),
            Ok(items) => {
                let sorted = sort_by_id(items);
                match first_duplicate(sorted) {
                    Some(id) => Err(ParseErrorModel::DuplicateId(id)),
                    None => Ok(
                        DocumentModel {
                            preamble: trim_spec(join_with(lines.take(starts[0]), seq!['\n'])),
                            items: sorted,
                        },
                    ),
                }
            },
        }
    }
}

pub(crate) proof fn lemma_heading_indices(lines: Seq<Seq<char>>)
    ensures
        forall|p: int|
            0 <= p < heading_indices(lines).len() ==> 0 <= #[trigger] heading_indices(lines)[p]
                < lines.len(),
        forall|p: int, q: int|
            0 <= p < q < heading_indices(lines).len() ==> #[trigger] heading_indices(lines)[p]
                < #[trigger] heading_indices(lines)[q],
    decreases lines.len(),
{
    if lines.len() > 0 {
        let prev = heading_indices(lines.drop_last());
        lemma_heading_indices(lines.drop_last());
        if heading_parts(lines.last()) is Some {
            let cur = prev.push(lines.len() - 1);
            assert(heading_indices(lines) == cur);
            assert forall|p: int| 0 <= p < cur.len() implies 0 <= #[trigger] cur[p] < lines.len() by {
                if p < prev.len() {
                    assert(cur[p] == prev[p]);
                }
            }
            assert forall|p: int, q: int| 0 <= p < q < cur.len() implies #[trigger] cur[p]
                < #[trigger] cur[q] by {
                assert(cur[p] == prev[p]);
                if q < prev.len() {
                    assert(cur[q] == prev[q]);
                }
            }
        }
    }
}

fn find_headings(lines: &Vec<Vec<char>>) -> (r: Vec<usize>)
    ensures
        r@.len() == heading_indices(views_of(lines@)).len(),
        forall|p: int|
            0 <= p < r@.len() ==> r@[p] as int == #[trigger] heading_indices(views_of(lines@))[p],
{
    let mut out: Vec<usize> = Vec::new();
    let mut i: usize = 0;
    while i < lines.len()
        invariant
            i <= lines.len(),
            out@.len() == heading_indices(views_of(lines@).take(i as int)).len(),
            forall|p: int|
                0 <= p < out@.len() ==> out@[p] as int == #[trigger] heading_indices(
                    views_of(lines@).take(i as int),
                )[p],
        decreases lines.len() - i,
    {
        let ghost prefix = views_of(lines@).take(i + 1);
        assert(prefix.drop_last() =~= views_of(lines@).take(i as int));
        assert(prefix.last() == lines@[i as int]@);
        if match_heading(lines[i].as_slice()).is_some() {
            out.push(i);
        }
        i = i + 1;
    }
    assert(views_of(lines@).take(lines.len() as int) =~= views_of(lines@));
    out
}

fn insert_sorted_by_id(items: &mut Vec<PlanItem>, item: PlanItem)
    ensures
        item_views(final(items)@) == item_views(old(items)@).insert(
            insert_position(item_views(old(items)@), item.id),
            item@,
        ),
{
    let ghost base = item_views(items@);
    let mut k = items.len();
    assert(base.take(k as int) =~= base);
    while k > 0 && items[k - 1].id > item.id
        invariant
            k <= items.len(),
            base == item_views(items@),
            insert_position(base, item.id) == insert_position(base.take(k as int), item.id),
        decreases k,
    {
        assert(base.take(k as int).drop_last() =~= base.take(k - 1));
        k = k - 1;
    }
    proof {
        if k > 0 {
            assert(base.take(k as int).last() == items@[k - 1]@);
        }
    }
    let ghost pos = k;
    items.insert(k, item);
    assert(item_views(items@) =~= base.insert(pos as int, item@));
}

/// `done` followed by the outcome `r`.
pub open spec fn prepend(done: Seq<ItemModel>, r: Result<Seq<ItemModel>, ParseErrorModel>) -> Result<
    Seq<ItemModel>,
    ParseErrorModel,
> {
    match r {
        Ok(rest) => Ok(done + rest),
        Err(e) => Err(e),
    }
}

fn parse_items(lines: &Vec<Vec<char>>, starts: &Vec<usize>) -> (r: Result<
    Vec<PlanItem>,
    PlanParseError,
>)
    requires
        starts@.len() == heading_indices(views_of(lines@)).len(),
        forall|p: int|
            0 <= p < starts@.len() ==> starts@[p] as int == #[trigger] heading_indices(
                views_of(lines@),
            )[p],
    ensures
        match parse_blocks(views_of(lines@), heading_indices(views_of(lines@)), 0) {
            Ok(items) => r is Ok && item_views(r->Ok_0@) == sort_by_id(items),
            Err(e) => r is Err && r->Err_0@ == e,
        },
{
    let ghost lv = views_of(lines@);
    let ghost sv = heading_indices(lv);
    proof {
        lemma_heading_indices(lv);
    }
    let mut sorted: Vec<PlanItem> = Vec::new();
    let ghost mut parsed: Seq<ItemModel> = Seq::empty();
    assert(prepend(parsed, parse_blocks(lv, sv, 0)) =~= parse_blocks(lv, sv, 0)) by {
        match parse_blocks(lv, sv, 0) {
            Ok(rest) => {
                assert(parsed + rest =~= rest);
            },
            Err(e) => {},
        }
    }
    let mut p: usize = 0;
    while p < starts.len()
        invariant
            p <= starts.len(),
            lv == views_of(lines@),
            sv == heading_indices(lv),
            starts@.len() == sv.len(),
            forall|q: int| 0 <= q < starts@.len() ==> starts@[q] as int == #[trigger] sv[q],
            forall|q: int| 0 <= q < sv.len() ==> 0 <= #[trigger] sv[q] < lv.len(),
            forall|q: int, t: int| 0 <= q < t < sv.len() ==> #[trigger] sv[q] < #[trigger] sv[t],
            parse_blocks(lv, sv, 0) == prepend(parsed, parse_blocks(lv, sv, p as int)),
            item_views(sorted@) == sort_by_id(parsed),
        decreases starts.len() - p,
    {
        let from = starts[p];
        let to = if p + 1 < starts.len() {
            starts[p + 1]
        } else {
            lines.len()
        };
        assert(lv.subrange(from as int, to as int) == item_block(lv, sv, p as int));
        let item = match parse_plan_item(lines, from, to) {
            Err(e) => {
                return Err(e);
            },
            Ok(item) => item,
        };
        proof {
            let next = parse_blocks(lv, sv, p + 1);
            assert(parse_blocks(lv, sv, p as int) == prepend(seq![item@], next));
            match next {
                Ok(rest) => {
                    assert(parsed + (seq![item@] + rest) =~= parsed.push(item@) + rest);
                },
                Err(e) => {},
            }
            assert(parsed.push(item@).drop_last() =~= parsed);
        }
        insert_sorted_by_id(&mut sorted, item);
        proof {
            parsed = parsed.push(item@);
        }
        p = p + 1;
    }
    assert(parsed + Seq::<ItemModel>::empty() =~= parsed);
    Ok(sorted)
}

fn check_unique_ids(sorted: &Vec<PlanItem>) -> (r: Result<(), PlanParseError>)
    ensures
        match first_duplicate(item_views(sorted@)) {
            Some(id) => r is Err && r->Err_0@ == ParseErrorModel::DuplicateId(id),
            None => r is Ok,
        },
{
    let n = sorted.len();
    let mut q: usize = 0;
    assert(item_views(sorted@).skip(0) =~= item_views(sorted@));
    while q < n && n - q > 1
        invariant
            q <= n == sorted.len(),
            first_duplicate(item_views(sorted@)) == first_duplicate(
                item_views(sorted@).skip(q as int),
            ),
        decreases n - q,
    {
        let ghost rest = item_views(sorted@).skip(q as int);
        assert(rest[0] == sorted@[q as int]@);
        assert(rest[1] == sorted@[q + 1]@);
        if sorted[q].id == sorted[q + 1].id {
            return Err(PlanParseError::DuplicateId { id: sorted[q].id });
        }
        assert(rest.drop_first() =~= item_views(sorted@).skip(q + 1));
        q = q + 1;
    }
    Ok(())
}

/// Parses a plan file.
pub fn parse_plan_document(raw: &str) -> (r: Result<PlanDocument, PlanParseError>)
    ensures
        match parse_document_spec(raw@) {
            Ok(m) => r is Ok && r->Ok_0@ == m,
            Err(e) => r is Err && r->Err_0@ == e,
        },
{
    let chars = chars_of(raw);
    let lines = split_lines(chars.as_slice());
    let starts = find_headings(&lines);
    proof {
        lemma_heading_indices(views_of(lines@));
    }
    let ghost lv = views_of(lines@);
    assert(lv == lines_of(raw@));
    if starts.len() == 0 {
        let items: Vec<PlanItem> = Vec::new();
        assert(item_views(items@) =~= Seq::<ItemModel>::empty());
        return Ok(
            PlanDocument { preamble: string_of(trim_chars(chars.as_slice()).as_slice()), items },
        );
    }
    let sorted = match parse_items(&lines, &starts) {
        Err(e) => {
            return Err(e);
        },
        Ok(v) => v,
    };
    match check_unique_ids(&sorted) {
        Err(e) => {
            return Err(e);
        },
        Ok(()) => {},
    }
    let first = starts[0];
    let mut newline: Vec<char> = Vec::new();
    newline.push('\n');
    assert(newline@ =~= seq!['\n']);
    let head = join_range(&lines, 0, first, newline.as_slice());
    assert(views_of(lines@).subrange(0, first as int) =~= views_of(lines@).take(first as int));
    assert(first == heading_indices(lv)[0]);
    let doc = PlanDocument {
        preamble: string_of(trim_chars(head.as_slice()).as_slice()),
        items: sorted,
    };
    proof {
        let items = parse_blocks(lv, heading_indices(lv), 0)->Ok_0;
        assert(doc@.items == sort_by_id(items));
        assert(doc@.preamble == trim_spec(join_with(lv.take(first as int), seq!['\n'])));
    }
    Ok(doc)
}

// ---------------------------------------------------------------------------
// Rendering
// ---------------------------------------------------------------------------

/// Cards rendered as a comma-separated list of double-quoted values.
pub open spec fn quoted_cards(cards: Seq<Seq<char>>) -> Seq<char>
    decreases cards.len(),
{
    if cards.len() == 0 {
        Seq::empty()
    } else if cards.len() == 1 {
        "\""@ + cards[0] + "\""@
    } else {
        quoted_cards(cards.drop_last()) + ", "@ + "\""@ + cards.last() + "\""@
    }
}

/// Deliverable lines.
pub open spec fn deliverable_lines(ds: Seq<Seq<char>>) -> Seq<char>
    decreases ds.len(),
{
    if ds.len() == 0 {
        Seq::empty()
    } else {
        deliverable_lines(ds.drop_last()) + "        - "@ + trim_spec(ds.last()) + "\n"@
    }
}

/// The Markdown block of one plan item.
pub open spec fn rendered_item(item: ItemModel) -> Seq<char> {
    let mark = if item.status == PlanStatus::Completed {
        "x"@
    } else {
        " "@
    };
    decimal_chars(item.id as nat) + ". ["@ + mark + "] "@ + trim_spec(item.title) + "\n"@
        + "    - Priority: "@ + decimal_chars(item.priority as nat) + "\n"@ + "    - Cards: "@
        + quoted_cards(item.cards) + "\n"@ + "    - Description: "@ + trim_spec(item.description)
        + "\n"@ + "    - Deliverables:\n"@ + deliverable_lines(item.deliverables) + (
    match item.acceptance_criteria {
        Some(a) => "    - Acceptance Criteria: "@ + trim_spec(a) + "\n"@,
        None => Seq::empty(),
    }) + (match item.notes {
        Some(n) => "    - Notes: "@ + trim_spec(n) + "\n"@,
        None => Seq::empty(),
    }) + "    - Status: "@ + status_text(item.status) + "\n"@
}

fn push_trimmed(out: &mut String, s: &String)
    ensures
        final(out)@ == old(out)@ + trim_spec(s@),
{
    let t = string_of(trim_chars(chars_of(s.as_str()).as_slice()).as_slice());
    out.append(t.as_str());
}

/// Renders one plan item.
pub fn render_item(item: &PlanItem) -> (r: String)
    ensures
        r@ == rendered_item(item@),
{
    let mut out = String::new();
    push_decimal(&mut out, item.id);
    out.append(". [");
    if item.status == PlanStatus::Completed {
        out.append("x");
    } else {
        out.append(" ");
    }
    out.append("] ");
    push_trimmed(&mut out, &item.title);
    out.append("\n");
    out.append("    - Priority: ");
    push_decimal(&mut out, item.priority as u64);
    out.append("\n");
    out.append("    - Cards: ");
    let ghost before_cards = out@;
    let mut i: usize = 0;
    while i < item.cards.len()
        invariant
            i <= item.cards.len(),
            out@ == before_cards + quoted_cards(texts(item.cards@).take(i as int)),
        decreases item.cards.len() - i,
    {
        let ghost prev = texts(item.cards@).take(i as int);
        let ghost next = texts(item.cards@).take(i + 1);
        assert(next.drop_last() =~= prev);
        assert(next.last() == item.cards@[i as int]@);
        if i > 0 {
            out.append(", ");
        }
        out.append("\"");
        out.append(item.cards[i].as_str());
        out.append("\"");
        proof {
            if i == 0 {
                assert(prev =~= Seq::<Seq<char>>::empty());
            }
        }
        i = i + 1;
    }
    assert(texts(item.cards@).take(item.cards.len() as int) =~= texts(item.cards@));
    out.append("\n");
    out.append("    - Description: ");
    push_trimmed(&mut out, &item.description);
    out.append("\n");
    out.append("    - Deliverables:\n");
    let ghost before_deliverables = out@;
    let mut j: usize = 0;
    while j < item.deliverables.len()
        invariant
            j <= item.deliverables.len(),
            out@ == before_deliverables + deliverable_lines(texts(item.deliverables@).take(j as int)),
        decreases item.deliverables.len() - j,
    {
        let ghost next = texts(item.deliverables@).take(j + 1);
        assert(next.drop_last() =~= texts(item.deliverables@).take(j as int));
        assert(next.last() == item.deliverables@[j as int]@);
        out.append("        - ");
        push_trimmed(&mut out, &item.deliverables[j]);
        out.append("\n");
        j = j + 1;
    }
    assert(texts(item.deliverables@).take(item.deliverables.len() as int) =~= texts(
        item.deliverables@,
    ));
    if let Some(a) = &item.acceptance_criteria {
        out.append("    - Acceptance Criteria: ");
        push_trimmed(&mut out, a);
        out.append("\n");
    }
    if let Some(n) = &item.notes {
        out.append("    - Notes: ");
        push_trimmed(&mut out, n);
        out.append("\n");
    }
    out.append("    - Status: ");
    out.append(render_status(&item.status));
    out.append("\n");
    assert(out@ =~= rendered_item(item@));
    out
}

/// The rendered plan file: the trimmed preamble and a blank line (when there is one),
/// then the items in id order separated by blank lines, ending with a newline.
pub open spec fn rendered_document(doc: DocumentModel) -> Seq<char> {
    let head = if trim_spec(doc.preamble).len() > 0 {
        trim_spec(doc.preamble) + "\n\n"@
    } else {
        Seq::empty()
    };
    let body = head + join_with(sort_by_id(doc.items).map_values(|i: ItemModel| rendered_item(i)), "\n"@);
    if body.len() > 0 && body.last() == '\n' {
        body
    } else {
        body.push('\n')
    }
}

fn copy_strings(v: &Vec<String>) -> (r: Vec<String>)
    ensures
        texts(r@) == texts(v@),
{
    let mut out: Vec<String> = Vec::new();
    let mut i: usize = 0;
    while i < v.len()
        invariant
            i <= v.len(),
            texts(out@) =~= texts(v@).take(i as int),
        decreases v.len() - i,
    {
        let ghost before = out@;
        out.push(v[i].clone());
        assert(texts(out@) =~= texts(before).push(v@[i as int]@));
        assert(texts(v@).take(i + 1) =~= texts(v@).take(i as int).push(v@[i as int]@));
        i = i + 1;
    }
    assert(texts(v@).take(v.len() as int) =~= texts(v@));
    out
}

fn copy_opt(v: &Option<String>) -> (r: Option<String>)
    ensures
        opt_view(r) == opt_view(*v),
{
    match v {
        Some(s) => Some(s.clone()),
        None => None,
    }
}

/// A copy of a plan item.
pub fn copy_item(item: &PlanItem) -> (r: PlanItem)
    ensures
        r@ == item@,
{
    PlanItem {
        id: item.id,
        title: item.title.clone(),
        priority: item.priority,
        cards: copy_strings(&item.cards),
        description: item.description.clone(),
        deliverables: copy_strings(&item.deliverables),
        acceptance_criteria: copy_opt(&item.acceptance_criteria),
        notes: copy_opt(&item.notes),
        status: item.status,
    }
}

/// Renders a plan document.
pub fn render_plan_document(document: &PlanDocument) -> (r: String)
    ensures
        r@ == rendered_document(document@),
{
    let mut items: Vec<PlanItem> = Vec::new();
    let mut i: usize = 0;
    while i < document.items.len()
        invariant
            i <= document.items.len(),
            item_views(items@) == sort_by_id(item_views(document.items@).take(i as int)),
        decreases document.items.len() - i,
    {
        let ghost next = item_views(document.items@).take(i + 1);
        assert(next.drop_last() =~= item_views(document.items@).take(i as int));
        assert(next.last() == document.items@[i as int]@);
        insert_sorted_by_id(&mut items, copy_item(&document.items[i]));
        i = i + 1;
    }
    assert(item_views(document.items@).take(document.items.len() as int) =~= item_views(
        document.items@,
    ));
    let ghost sorted = sort_by_id(item_views(document.items@));
    let ghost pieces = sorted.map_values(|m: ItemModel| rendered_item(m));
    let mut rendered = String::new();
    let preamble = trim_chars(chars_of(document.preamble.as_str()).as_slice());
    if preamble.len() > 0 {
        rendered.append(string_of(preamble.as_slice()).as_str());
        rendered.append("\n\n");
    }
    let ghost head = rendered@;
    assert(head == (if trim_spec(document@.preamble).len() > 0 {
        trim_spec(document@.preamble) + "\n\n"@
    } else {
        Seq::<char>::empty()
    }));
    let mut k: usize = 0;
    while k < items.len()
        invariant
            k <= items.len(),
            item_views(items@) == sorted,
            pieces == sorted.map_values(|m: ItemModel| rendered_item(m)),
            rendered@ == head + join_with(pieces.take(k as int), "\n"@),
        decreases items.len() - k,
    {
        let ghost next = pieces.take(k + 1);
        assert(next.drop_last() =~= pieces.take(k as int));
        assert(next.last() == rendered_item(items@[k as int]@));
        if k > 0 {
            rendered.append("\n");
        }
        let text = render_item(&items[k]);
        rendered.append(text.as_str());
        proof {
            if k == 0 {
                assert(pieces.take(0) =~= Seq::<Seq<char>>::empty());
                assert(next.len() == 1);
            }
        }
        k = k + 1;
    }
    assert(pieces.take(items.len() as int) =~= pieces);
    assert(rendered@ == head + join_with(pieces, "\n"@));
    let chars = chars_of(rendered.as_str());
    if !(chars.len() > 0 && chars[chars.len() - 1] == '\n') {
        push_char(&mut rendered, '\n');
    }
    rendered
}


// ---------------------------------------------------------------------------
// Status edits in place
// ---------------------------------------------------------------------------

/// The checkbox mark of a status: `x` for a completed item, a space otherwise.
pub open spec fn mark_of(s: PlanStatus) -> char {
    if s == PlanStatus::Completed {
        'x'
    } else {
        ' '
    }
}

/// Whether a line is a `    - Status: ...` field line (the key compared as the reader
/// does: trimmed, ASCII lower-cased).
pub open spec fn is_status_line(line: Seq<char>) -> bool {
    &&& starts_with_spec(line, field_prefix())
    &&& match first_index_of(line.skip(6), ':') {
        Some(c) => ascii_lower_seq(trim_spec(line.skip(6).take(c))) == "status"@,
        None => false,
    }
}

/// The `Status:` line of a status.
pub open spec fn status_field_text(s: PlanStatus) -> Seq<char> {
    "    - Status: "@ + status_text(s)
}

/// The id an item heading line names, if it is a heading whose digits read as a `u64`.
pub open spec fn heading_id(line: Seq<char>) -> Option<u64> {
    match heading_parts(line) {
        Some((d, _, _)) => match parse_unsigned_spec(d, u64::MAX as int) {
            Ok(n) => Some(n as u64),
            Err(_) => None,
        },
        None => None,
    }
}

/// The first item block, from the `p`-th on, whose heading names `id`.
pub open spec fn block_with_id(lines: Seq<Seq<char>>, starts: Seq<int>, id: u64, p: int) -> Option<
    int,
>
    decreases starts.len() - p,
{
    if p < 0 || p >= starts.len() {
        None
    } else if heading_id(lines[starts[p]]) == Some(id) {
        Some(p)
    } else {
        block_with_id(lines, starts, id, p + 1)
    }
}

/// The line after the `p`-th item block.
pub open spec fn block_end(lines: Seq<Seq<char>>, starts: Seq<int>, p: int) -> int {
    if p + 1 < starts.len() {
        starts[p + 1]
    } else {
        lines.len() as int
    }
}

/// A heading line with its checkbox set for a status.
pub open spec fn marked_heading(line: Seq<char>, s: PlanStatus) -> Seq<char> {
    match heading_parts(line) {
        Some((_, _, rest)) => line.update(line.len() - rest.len() - 2, mark_of(s)),
        None => line,
    }
}

/// The `q`-th piece of the text once the block `[lo, hi)` has its status set: the heading's
/// checkbox and every `Status:` line of the block change (what follows a line in its piece,
/// a carriage return, stays), all else is kept.
pub open spec fn edited_piece(
    pieces: Seq<Seq<char>>,
    lines: Seq<Seq<char>>,
    lo: int,
    hi: int,
    s: PlanStatus,
    q: int,
) -> Seq<char> {
    if lo <= q < hi {
        let tail = pieces[q].skip(lines[q].len() as int);
        if q == lo {
            marked_heading(lines[q], s) + tail
        } else if is_status_line(lines[q]) {
            status_field_text(s) + tail
        } else {
            pieces[q]
        }
    } else {
        pieces[q]
    }
}

/// Whether the block `[lo, hi)` has a `Status:` line after its heading.
pub open spec fn block_has_status(lines: Seq<Seq<char>>, lo: int, hi: int) -> bool {
    exists|q: int| lo < q < hi && #[trigger] is_status_line(lines[q])
}

/// The plan text with the status of the `p`-th item block set in place: the checkbox and
/// the `Status:` lines of that block change, a `Status:` line is added after the heading
/// when the block has none, and every other character stays.
pub open spec fn status_updated_text(raw: Seq<char>, p: int, s: PlanStatus) -> Seq<char> {
    let pieces = split_on(raw, '\n');
    let lines = lines_of(raw);
    let starts = heading_indices(lines);
    let lo = starts[p];
    let hi = block_end(lines, starts, p);
    let edited = Seq::new(pieces.len(), |q: int| edited_piece(pieces, lines, lo, hi, s, q));
    let all = if block_has_status(lines, lo, hi) {
        edited
    } else {
        edited.take(lo + 1) + seq![status_field_text(s) + pieces[lo].skip(lines[lo].len() as int)]
            + edited.skip(lo + 1)
    };
    join_with(all, seq!['\n'])
}

fn status_line_exec(line: &Vec<char>) -> (r: bool)
    ensures
        r == is_status_line(line@),
{
    let prefix = chars_of("    - ");
    proof {
        reveal_strlit("    - ");
    }
    assert(prefix@ =~= field_prefix());
    if !starts_with(line.as_slice(), prefix.as_slice()) {
        return false;
    }
    let body = slice_chars(line.as_slice(), 6, line.len());
    assert(body@ =~= line@.skip(6));
    match find_char(body.as_slice(), ':') {
        None => false,
        Some(c) => {
            proof {
                lemma_first_index_of(body@, ':');
            }
            let raw_key = slice_chars(body.as_slice(), 0, c);
            assert(raw_key@ =~= body@.take(c as int));
            let key = ascii_lower_chars(trim_chars(raw_key.as_slice()).as_slice());
            keyword_is(&key, "status")
        },
    }
}

/// The text after a heading's checkbox leaves room for the digits, the dot and the box.
pub(crate) proof fn lemma_heading_rest(line: Seq<char>)
    requires
        heading_parts(line) is Some,
    ensures
        ({
            let (d, m, rest) = heading_parts(line)->0;
            rest.len() + 4 <= line.len()
        }),
{
    let k = digit_run(line) as int;
    let after = line.skip(k + 1);
    let w = leading_space(after) as int;
    assert(after.skip(w + 3).len() == after.len() - w - 3);
}

/// Whether every line of a text is a prefix of its piece of the split at `\n`.
proof fn lemma_lines_in_pieces(raw: Seq<char>)
    ensures
        lines_of(raw).len() <= split_on(raw, '\n').len(),
        forall|q: int|
            0 <= q < lines_of(raw).len() ==> (#[trigger] lines_of(raw)[q]).len() <= split_on(
                raw,
                '\n',
            )[q].len() && split_on(raw, '\n')[q].take(lines_of(raw)[q].len() as int)
                == lines_of(raw)[q],
{
    crate::text::lemma_split_on_nonempty(raw, '\n');
    let pieces = split_on(raw, '\n');
    let lines = lines_of(raw);
    assert forall|q: int| 0 <= q < lines.len() implies (#[trigger] lines[q]).len() <= pieces[q].len()
        && pieces[q].take(lines[q].len() as int) == lines[q] by {
        if q < pieces.len() - 1 {
            assert(lines[q] == strip_cr(pieces[q]));
            if pieces[q].len() > 0 && pieces[q].last() == '\r' {
                assert(pieces[q].take(lines[q].len() as int) =~= pieces[q].drop_last());
            } else {
                assert(pieces[q].take(lines[q].len() as int) =~= pieces[q]);
            }
        } else {
            assert(lines[q] == pieces.last());
            assert(pieces[q].take(lines[q].len() as int) =~= pieces[q]);
        }
    }
}

/// `block_with_id` finds a block whose heading names the id.
pub(crate) proof fn lemma_block_with_id(lines: Seq<Seq<char>>, starts: Seq<int>, id: u64, p: int)
    ensures
        match block_with_id(lines, starts, id, p) {
            Some(b) => p <= b < starts.len() && 0 <= b && heading_id(lines[starts[b]]) == Some(id),
            None => true,
        },
    decreases starts.len() - p,
{
    if 0 <= p < starts.len() && heading_id(lines[starts[p]]) != Some(id) {
        lemma_block_with_id(lines, starts, id, p + 1);
    }
}

/// Sets the status of the item block whose heading names `id`, in place; `None` when no
/// heading names it.
fn status_edit(raw: &str, id: u64, s: PlanStatus) -> (r: Option<String>)
    ensures
        match block_with_id(lines_of(raw@), heading_indices(lines_of(raw@)), id, 0) {
            None => r is None,
            Some(p) => r is Some && r->0@ == status_updated_text(raw@, p, s),
        },
{
    let chars = chars_of(raw);
    let pieces = split_chars(chars.as_slice(), '\n');
    let lines = split_lines(chars.as_slice());
    let ghost pv = split_on(raw@, '\n');
    let ghost lv = lines_of(raw@);
    assert(views_of(pieces@) == pv);
    assert(views_of(lines@) == lv);
    let starts = find_headings(&lines);
    let ghost sv = heading_indices(lv);
    proof {
        lemma_heading_indices(lv);
        lemma_lines_in_pieces(raw@);
    }
    let mut p: usize = 0;
    let mut found = false;
    while !found && p < starts.len()
        invariant
            p <= starts@.len(),
            starts@.len() == sv.len(),
            forall|x: int| 0 <= x < starts@.len() ==> starts@[x] as int == #[trigger] sv[x],
            forall|x: int| 0 <= x < sv.len() ==> 0 <= #[trigger] sv[x] < lv.len(),
            views_of(lines@) == lv,
            !found ==> block_with_id(lv, sv, id, p as int) == block_with_id(lv, sv, id, 0),
            found ==> p < sv.len() && block_with_id(lv, sv, id, 0) == Some(p as int),
        decreases starts@.len() - p + (if found { 0int } else { 1int }),
    {
        let at = starts[p];
        assert(sv[p as int] == at as int);
        assert(lines@[at as int]@ == lv[at as int]);
        let matched = match match_heading(lines[at].as_slice()) {
            Some(h) => match parse_unsigned(h.digits.as_slice(), u64::MAX) {
                Ok(n) => n == id,
                Err(_) => false,
            },
            None => false,
        };
        assert(matched == (heading_id(lv[sv[p as int]]) == Some(id)));
        if matched {
            found = true;
        } else {
            p = p + 1;
        }
    }
    if !found {
        assert(block_with_id(lv, sv, id, p as int) is None);
        return None;
    }
    assert(p < starts@.len());
    proof {
        lemma_block_with_id(lv, sv, id, 0);
        assert(heading_id(lv[sv[p as int]]) == Some(id));
    }
    let lo = starts[p];
    let count = starts.len();
    let hi = if count - p >= 2 {
        starts[p + 1]
    } else {
        lines.len()
    };
    assert(lo as int == sv[p as int]);
    assert(hi as int == block_end(lv, sv, p as int));
    proof {
        if p + 1 < sv.len() {
            assert(sv[p as int] < sv[p + 1]);
        }
    }
    let ghost edited = Seq::new(pv.len(), |q: int| edited_piece(pv, lv, lo as int, hi as int, s, q));
    let mark = if s == PlanStatus::Completed {
        'x'
    } else {
        ' '
    };
    let status_line = {
        let mut t = chars_of("    - Status: ");
        let word = chars_of(render_status(&s));
        let mut i: usize = 0;
        while i < word.len()
            invariant
                i <= word@.len(),
                t@ == "    - Status: "@ + word@.take(i as int),
            decreases word@.len() - i,
        {
            assert(word@.take(i + 1) =~= word@.take(i as int).push(word@[i as int]));
            t.push(word[i]);
            i = i + 1;
        }
        assert(word@.take(word@.len() as int) =~= word@);
        t
    };
    assert(status_line@ == status_field_text(s));
    let mut out: Vec<Vec<char>> = Vec::new();
    let mut has_status = false;
    let mut q: usize = 0;
    while q < pieces.len()
        invariant
            q <= pieces@.len(),
            views_of(pieces@) == pv,
            views_of(lines@) == lv,
            lv.len() <= pv.len(),
            lo < hi <= lv.len(),
            forall|x: int|
                0 <= x < lv.len() ==> (#[trigger] lv[x]).len() <= pv[x].len() && pv[x].take(
                    lv[x].len() as int,
                ) == lv[x],
            heading_parts(lv[lo as int]) is Some,
            status_line@ == status_field_text(s),
            mark == mark_of(s),
            edited == Seq::new(pv.len(), |x: int| edited_piece(pv, lv, lo as int, hi as int, s, x)),
            out@.len() == q,
            forall|x: int| 0 <= x < q ==> (#[trigger] out@[x])@ == edited[x],
            has_status == exists|x: int| lo < x < q && x < hi && #[trigger] is_status_line(lv[x]),
        decreases pieces@.len() - q,
    {
        assert(pieces@[q as int]@ == pv[q as int]);
        let piece = if lo <= q && q < hi {
            assert(lines@[q as int]@ == lv[q as int]);
            let line = &lines[q];
            let tail = slice_chars(pieces[q].as_slice(), line.len(), pieces[q].len());
            assert(tail@ =~= pv[q as int].skip(lv[q as int].len() as int));
            if q == lo {
                proof {
                    lemma_heading_rest(lv[q as int]);
                }
                let h = match_heading(line.as_slice());
                let rest_len = match &h {
                    Some(h) => h.rest.len(),
                    None => 0,
                };
                let pos = line.len() - rest_len - 2;
                let mut marked = line.clone();
                marked.set(pos, mark);
                assert(marked@ =~= marked_heading(lv[q as int], s));
                let mut i: usize = 0;
                let ghost m0 = marked@;
                while i < tail.len()
                    invariant
                        i <= tail@.len(),
                        marked@ == m0 + tail@.take(i as int),
                    decreases tail@.len() - i,
                {
                    assert(tail@.take(i + 1) =~= tail@.take(i as int).push(tail@[i as int]));
                    marked.push(tail[i]);
                    i = i + 1;
                }
                assert(tail@.take(tail@.len() as int) =~= tail@);
                marked
            } else if status_line_exec(line) {
                has_status = true;
                let mut t = status_line.clone();
                let mut i: usize = 0;
                let ghost t0 = t@;
                while i < tail.len()
                    invariant
                        i <= tail@.len(),
                        t@ == t0 + tail@.take(i as int),
                    decreases tail@.len() - i,
                {
                    assert(tail@.take(i + 1) =~= tail@.take(i as int).push(tail@[i as int]));
                    t.push(tail[i]);
                    i = i + 1;
                }
                assert(tail@.take(tail@.len() as int) =~= tail@);
                t
            } else {
                pieces[q].clone()
            }
        } else {
            pieces[q].clone()
        };
        assert(piece@ == edited[q as int]);
        out.push(piece);
        q = q + 1;
    }
    assert(has_status == block_has_status(lv, lo as int, hi as int));
    if !has_status {
        assert(lines@[lo as int]@ == lv[lo as int]);
        assert(pieces@[lo as int]@ == pv[lo as int]);
        let tail = slice_chars(pieces[lo].as_slice(), lines[lo].len(), pieces[lo].len());
        let mut t = status_line.clone();
        let mut i: usize = 0;
        let ghost t0 = t@;
        while i < tail.len()
            invariant
                i <= tail@.len(),
                t@ == t0 + tail@.take(i as int),
            decreases tail@.len() - i,
        {
            assert(tail@.take(i + 1) =~= tail@.take(i as int).push(tail@[i as int]));
            t.push(tail[i]);
            i = i + 1;
        }
        assert(tail@.take(tail@.len() as int) =~= tail@);
        out.insert(lo + 1, t);
    }
    let sep = chars_of("\n");
    proof {
        reveal_strlit("\n");
    }
    assert(sep@ =~= seq!['\n']);
    let joined = join_range(&out, 0, out.len(), sep.as_slice());
    assert(views_of(out@).subrange(0, out@.len() as int) =~= (if block_has_status(lv, lo as int, hi as int) {
        edited
    } else {
        edited.take(lo + 1) + seq![status_field_text(s) + pv[lo as int].skip(lv[lo as int].len() as int)]
            + edited.skip(lo + 1)
    }));
    Some(string_of(joined.as_slice()))
}

// ---------------------------------------------------------------------------
// Parse error messages
// ---------------------------------------------------------------------------

/// The message of a plan parse error.
pub open spec fn parse_error_text(e: ParseErrorModel) -> Seq<char> {
    match e {
        ParseErrorModel::EmptyBlock => "unexpected empty plan item block"@,
        ParseErrorModel::InvalidHeading(line) => "invalid plan heading: "@ + line,
        ParseErrorModel::InvalidId(k) => "invalid plan id: "@ + int_error_text(k),
        ParseErrorModel::InvalidDeliverableLine(id, line) => "invalid deliverable line for item "@
            + decimal_chars(id as nat) + ": "@ + line,
        ParseErrorModel::InvalidFieldIndentation(id, line) =>
            "invalid plan field indentation for item "@ + decimal_chars(id as nat) + ": "@ + line,
        ParseErrorModel::InvalidField(id, line) => "invalid plan field for item "@ + decimal_chars(
            id as nat,
        ) + ": "@ + line,
        ParseErrorModel::InvalidPriority(id, k) => "invalid priority for item "@ + decimal_chars(
            id as nat,
        ) + ": "@ + int_error_text(k),
        ParseErrorModel::UnknownField(id, key) => "unknown plan field for item "@ + decimal_chars(
            id as nat,
        ) + ": "@ + key,
        ParseErrorModel::InvalidStatus(v) => "invalid status: "@ + v,
        ParseErrorModel::MissingPriority(id) => "missing priority for item "@ + decimal_chars(
            id as nat,
        ),
        ParseErrorModel::MissingCards(id) => "missing cards for item "@ + decimal_chars(id as nat),
        ParseErrorModel::MissingDescription(id) => "missing description for item "@
            + decimal_chars(id as nat),
        ParseErrorModel::InvalidItem(p) => problem_text(p),
        ParseErrorModel::DuplicateId(id) => "duplicate plan item id: "@ + decimal_chars(id as nat),
    }
}

fn text_with_id(prefix: &str, id: u64) -> (r: String)
    ensures
        r@ == prefix@ + decimal_chars(id as nat),
{
    let mut s = String::from_str(prefix);
    push_decimal(&mut s, id);
    s
}

fn text_with_id_and(prefix: &str, id: u64, rest: &str) -> (r: String)
    ensures
        r@ == prefix@ + decimal_chars(id as nat) + ": "@ + rest@,
{
    let mut s = text_with_id(prefix, id);
    s.append(": ");
    s.append(rest);
    s
}

impl PlanParseError {
    /// The message of this error.
    pub fn message(&self) -> (r: String)
        ensures
            r@ == parse_error_text(self@),
    {
        match self {
            PlanParseError::EmptyBlock => "unexpected empty plan item block".to_string(),
            PlanParseError::InvalidHeading { line } => {
                let mut s = String::from_str("invalid plan heading: ");
                s.append(line.as_str());
                s
            },
            PlanParseError::InvalidId { kind } => {
                let mut s = String::from_str("invalid plan id: ");
                s.append(kind.description());
                s
            },
            PlanParseError::InvalidDeliverableLine { id, line } => text_with_id_and(
                "invalid deliverable line for item ",
                *id,
                line.as_str(),
            ),
            PlanParseError::InvalidFieldIndentation { id, line } => text_with_id_and(
                "invalid plan field indentation for item ",
                *id,
                line.as_str(),
            ),
            PlanParseError::InvalidField { id, line } => text_with_id_and(
                "invalid plan field for item ",
                *id,
                line.as_str(),
            ),
            PlanParseError::InvalidPriority { id, kind } => text_with_id_and(
                "invalid priority for item ",
                *id,
                kind.description(),
            ),
            PlanParseError::UnknownField { id, key } => text_with_id_and(
                "unknown plan field for item ",
                *id,
                key.as_str(),
            ),
            PlanParseError::InvalidStatus { value } => {
                let mut s = String::from_str("invalid status: ");
                s.append(value.as_str());
                s
            },
            PlanParseError::MissingPriority { id } => text_with_id("missing priority for item ", *id),
            PlanParseError::MissingCards { id } => text_with_id("missing cards for item ", *id),
            PlanParseError::MissingDescription { id } => text_with_id(
                "missing description for item ",
                *id,
            ),
            PlanParseError::InvalidItem { problem } => problem.message().to_string(),
            PlanParseError::DuplicateId { id } => text_with_id("duplicate plan item id: ", *id),
        }
    }
}

// ---------------------------------------------------------------------------
// Edits of a plan document
// ---------------------------------------------------------------------------

/// The index of the first item with id `id`.
pub open spec fn first_with_id(items: Seq<ItemModel>, id: u64) -> Option<int>
    decreases items.len(),
{
    if items.len() == 0 {
        None
    } else if items[0].id == id {
        Some(0)
    } else {
        match first_with_id(items.drop_first(), id) {
            Some(k) => Some(k + 1),
            None => None,
        }
    }
}

/// `first_with_id` finds the first item with that id, or tells that none has it.
pub proof fn lemma_first_with_id(items: Seq<ItemModel>, id: u64)
    ensures
        match first_with_id(items, id) {
            Some(k) => 0 <= k < items.len() && items[k].id == id && forall|j: int|
                0 <= j < k ==> #[trigger] items[j].id != id,
            None => forall|j: int| 0 <= j < items.len() ==> #[trigger] items[j].id != id,
        },
    decreases items.len(),
{
    if items.len() > 0 && items[0].id != id {
        lemma_first_with_id(items.drop_first(), id);
        assert forall|j: int| 1 <= j < items.len() implies #[trigger] items[j].id
            == items.drop_first()[j - 1].id by {}
    }
}

fn position_of(items: &Vec<PlanItem>, id: u64) -> (r: Option<usize>)
    ensures
        match first_with_id(item_views(items@), id) {
            Some(k) => r == Some(k as usize),
            None => r is None,
        },
{
    proof {
        lemma_first_with_id(item_views(items@), id);
    }
    let mut i: usize = 0;
    while i < items.len()
        invariant
            i <= items.len(),
            forall|j: int| 0 <= j < i ==> #[trigger] item_views(items@)[j].id != id,
            match first_with_id(item_views(items@), id) {
                Some(k) => 0 <= k < items@.len() && item_views(items@)[k].id == id && forall|
                    j: int,
                | 0 <= j < k ==> #[trigger] item_views(items@)[j].id != id,
                None => forall|j: int|
                    0 <= j < items@.len() ==> #[trigger] item_views(items@)[j].id != id,
            },
        decreases items.len() - i,
    {
        assert(item_views(items@)[i as int] == items@[i as int]@);
        if items[i].id == id {
            proof {
                match first_with_id(item_views(items@), id) {
                    Some(k) => {
                        if k > i {
                            assert(item_views(items@)[i as int].id != id);
                        } else if k < i {
                            assert(item_views(items@)[k].id != id);
                        }
                    },
                    None => {
                        assert(item_views(items@)[i as int].id != id);
                    },
                }
            }
            return Some(i);
        }
        i = i + 1;
    }
    None
}

/// The largest id among the items, or 0.
pub open spec fn max_id(items: Seq<ItemModel>) -> u64
    decreases items.len(),
{
    if items.len() == 0 {
        0
    } else if items.last().id > max_id(items.drop_last()) {
        items.last().id
    } else {
        max_id(items.drop_last())
    }
}

/// `max_id` bounds every id and, for a non-empty list, is one of them.
pub proof fn lemma_max_id(items: Seq<ItemModel>)
    ensures
        forall|j: int| 0 <= j < items.len() ==> #[trigger] items[j].id <= max_id(items),
        items.len() > 0 ==> exists|j: int| 0 <= j < items.len() && #[trigger] items[j].id == max_id(items),
    decreases items.len(),
{
    if items.len() > 0 {
        lemma_max_id(items.drop_last());
        assert forall|j: int| 0 <= j < items.len() implies #[trigger] items[j].id <= max_id(items) by {
            if j < items.len() - 1 {
                assert(items[j] == items.drop_last()[j]);
            }
        }
        if items.last().id > max_id(items.drop_last()) {
            assert(items[items.len() - 1].id == max_id(items));
        } else if items.len() > 1 {
            let j = choose|j: int| 0 <= j < items.drop_last().len() && #[trigger] items.drop_last()[j].id == max_id(items.drop_last());
            assert(items[j] == items.drop_last()[j]);
        } else {
            assert(items[0].id == max_id(items));
        }
    }
}

/// The largest id in use, or 0.
pub fn largest_id(items: &Vec<PlanItem>) -> (r: u64)
    ensures
        r == max_id(item_views(items@)),
{
    let mut best: u64 = 0;
    let mut i: usize = 0;
    while i < items.len()
        invariant
            i <= items.len(),
            best == max_id(item_views(items@).take(i as int)),
        decreases items.len() - i,
    {
        let ghost next = item_views(items@).take(i + 1);
        assert(next.drop_last() =~= item_views(items@).take(i as int));
        assert(next.last() == items@[i as int]@);
        if items[i].id > best {
            best = items[i].id;
        }
        i = i + 1;
    }
    assert(item_views(items@).take(items.len() as int) =~= item_views(items@));
    best
}

/// The items without those whose id is `id`, in order.
pub open spec fn without_id(items: Seq<ItemModel>, id: u64) -> Seq<ItemModel>
    decreases items.len(),
{
    if items.len() == 0 {
        items
    } else if items.last().id == id {
        without_id(items.drop_last(), id)
    } else {
        without_id(items.drop_last(), id).push(items.last())
    }
}

/// Keeps the items whose id is not `id`.
pub fn retain_other_ids(items: Vec<PlanItem>, id: u64) -> (r: Vec<PlanItem>)
    ensures
        item_views(r@) == without_id(item_views(items@), id),
{
    let mut items = items;
    let mut kept: Vec<PlanItem> = Vec::new();
    let ghost all = item_views(items@);
    let n = items.len();
    let mut i: usize = 0;
    while i < n
        invariant
            i <= n == all.len(),
            items@.len() == n - i,
            item_views(items@) == all.skip(i as int),
            item_views(kept@) == without_id(all.take(i as int), id),
        decreases n - i,
    {
        assert(item_views(items@)[0] == items@[0]@);
        let ghost prev = items@;
        let item = items.remove(0);
        assert(items@ =~= prev.subrange(1, prev.len() as int));
        assert(item@ == all[i as int]);
        assert forall|j: int| 0 <= j < items@.len() implies #[trigger] item_views(items@)[j]
            == all.skip(i + 1)[j] by {
            assert(items@[j] == prev[j + 1]);
            assert(item_views(prev)[j + 1] == all.skip(i as int)[j + 1]);
        }
        assert(item_views(items@) =~= all.skip(i + 1));
        let ghost next = all.take(i + 1);
        assert(next.drop_last() =~= all.take(i as int));
        assert(next.last() == all[i as int]);
        if item.id != id {
            let ghost before = item_views(kept@);
            kept.push(item);
            assert(item_views(kept@) =~= before.push(all[i as int]));
        }
        i = i + 1;
    }
    assert(all.take(n as int) =~= all);
    kept
}

// ---------------------------------------------------------------------------
// The plan store
// ---------------------------------------------------------------------------

/// The components of a `/`-separated path: a root marker when it is absolute, then its
/// segments without empty and `.` ones (as `Path::components` yields them).
pub open spec fn path_components(p: Seq<char>) -> Seq<Seq<char>> {
    (if p.len() > 0 && p[0] == '/' {
        seq![seq!['/']]
    } else {
        Seq::empty()
    }) + plain_segments(split_on(p, '/'))
}

/// The segments that are neither empty nor `.`.
pub open spec fn plain_segments(s: Seq<Seq<char>>) -> Seq<Seq<char>>
    decreases s.len(),
{
    if s.len() == 0 {
        s
    } else if s.last().len() == 0 || s.last() =~= seq!['.'] {
        plain_segments(s.drop_last())
    } else {
        plain_segments(s.drop_last()).push(s.last())
    }
}

/// Whether `path` lies under `base`, component by component (`Path::starts_with`).
pub open spec fn path_starts_with(path: Seq<char>, base: Seq<char>) -> bool {
    let a = path_components(path);
    let b = path_components(base);
    b.len() <= a.len() && a.take(b.len() as int) == b
}

fn components_of(p: &str) -> (r: Vec<Vec<char>>)
    ensures
        views_of(r@) == path_components(p@),
{
    let chars = chars_of(p);
    let segments = split_chars(chars.as_slice(), '/');
    let mut out: Vec<Vec<char>> = Vec::new();
    if chars.len() > 0 && chars[0] == '/' {
        let mut root: Vec<char> = Vec::new();
        root.push('/');
        out.push(root);
    }
    let ghost head = views_of(out@);
    assert(head =~= (if p@.len() > 0 && p@[0] == '/' {
        seq![seq!['/']]
    } else {
        Seq::<Seq<char>>::empty()
    }));
    let mut i: usize = 0;
    while i < segments.len()
        invariant
            i <= segments.len(),
            views_of(segments@) == split_on(p@, '/'),
            views_of(out@) == head + plain_segments(views_of(segments@).take(i as int)),
        decreases segments.len() - i,
    {
        let ghost next = views_of(segments@).take(i + 1);
        assert(next.drop_last() =~= views_of(segments@).take(i as int));
        assert(next.last() == segments@[i as int]@);
        let seg = &segments[i];
        let is_dot = seg.len() == 1 && seg[0] == '.';
        proof {
            if seg@.len() == 1 && seg@[0] == '.' {
                assert(seg@ =~= seq!['.']);
            }
        }
        if seg.len() > 0 && !is_dot {
            let ghost before = views_of(out@);
            out.push(seg.clone());
            assert(views_of(out@) =~= before.push(seg@));
            assert(head + plain_segments(next) =~= (head + plain_segments(views_of(segments@).take(i as int))).push(seg@));
        }
        i = i + 1;
    }
    assert(views_of(segments@).take(segments.len() as int) =~= views_of(segments@));
    out
}

/// Whether `path` lies under `base`, component by component.
pub fn path_is_within(path: &str, base: &str) -> (r: bool)
    ensures
        r == path_starts_with(path@, base@),
{
    let a = components_of(path);
    let b = components_of(base);
    if b.len() > a.len() {
        return false;
    }
    let mut i: usize = 0;
    while i < b.len()
        invariant
            views_of(a@) == path_components(path@),
            views_of(b@) == path_components(base@),
            b.len() <= a.len(),
            i <= b.len(),
            forall|j: int| 0 <= j < i ==> #[trigger] views_of(a@)[j] == views_of(b@)[j],
        decreases b.len() - i,
    {
        assert(views_of(a@)[i as int] == a@[i as int]@);
        assert(views_of(b@)[i as int] == b@[i as int]@);
        if !chars_eq(a[i].as_slice(), b[i].as_slice()) {
            assert(views_of(a@).take(b.len() as int)[i as int] != views_of(b@)[i as int]);
            return false;
        }
        i = i + 1;
    }
    assert(views_of(a@).take(b.len() as int) =~= views_of(b@));
    true
}

/// Reads and edits the project plan of a workspace. The caller reads the plan file and
/// hands its contents in; edits return the text to write back.
pub struct PlanStore {
    workspace_root: String,
    plan_path: String,
}

/// An error with a message made of a prefix and a path.
fn error_text(prefix: &str, path: &String) -> (r: String)
    ensures
        r@ == prefix@ + path@,
{
    let mut s = String::from_str(prefix);
    s.append(path.as_str());
    s
}

/// The message of a missing item.
pub open spec fn not_found_text(id: u64) -> Seq<char> {
    "plan item id not found: "@ + decimal_chars(id as nat)
}

/// An error of the given kind with the given message.
pub open spec fn error_with(e: AlfredError, kind: ErrorKind, text: Seq<char>) -> bool {
    error_kind_of(e) == kind && error_message_of(e)@ == text
}

/// The error of a plan file that did not parse.
pub open spec fn is_parse_failure(e: AlfredError, path: Seq<char>, raw: Seq<char>) -> bool {
    e matches AlfredError::InvalidArgument(m) && parse_document_spec(raw) is Err && m@
        == "failed to parse plan file "@ + path + ": "@ + parse_error_text(
        parse_document_spec(raw)->Err_0,
    )
}

impl PlanStore {
    /// Creates a plan store bound to a workspace and plan file path.
    pub fn new(workspace_root: String, plan_path: String) -> (s: Self)
        ensures
            s.workspace_root_view() == workspace_root@,
            s.plan_path_view() == plan_path@,
    {
        PlanStore { workspace_root, plan_path }
    }

    /// The workspace root.
    pub closed spec fn workspace_root_view(&self) -> Seq<char> {
        self.workspace_root@
    }

    /// The plan file path.
    pub closed spec fn plan_path_view(&self) -> Seq<char> {
        self.plan_path@
    }

    /// Returns the workspace root.
    pub fn workspace_root(&self) -> (r: &str)
        ensures
            r@ == self.workspace_root_view(),
    {
        self.workspace_root.as_str()
    }

    /// Returns the configured plan path.
    pub fn plan_path(&self) -> (p: &str)
        ensures
            p@ == self.plan_path_view(),
    {
        self.plan_path.as_str()
    }

    /// The plan file must lie inside the workspace.
    pub fn ensure_plan_is_within_workspace(&self) -> (r: Result<(), AlfredError>)
        ensures
            path_starts_with(self.plan_path_view(), self.workspace_root_view()) ==> r is Ok,
            !path_starts_with(self.plan_path_view(), self.workspace_root_view()) ==> (r is Err
                && error_with(
                r->Err_0,
                ErrorKind::WorkspaceBoundaryViolation,
                "plan path is outside workspace boundary: "@ + self.plan_path_view(),
            )),
    {
        if path_is_within(self.plan_path.as_str(), self.workspace_root.as_str()) {
            return Ok(());
        }
        Err(
            AlfredError::WorkspaceBoundaryViolation(
                error_text("plan path is outside workspace boundary: ", &self.plan_path),
            ),
        )
    }

    /// Checks the boundary, then the outcome of reading the plan file, then parses it.
    fn read_document(&self, contents: Result<String, AlfredError>) -> (r: Result<
        PlanDocument,
        AlfredError,
    >)
        ensures
            !path_starts_with(self.plan_path_view(), self.workspace_root_view()) ==> (r is Err
                && r->Err_0 is WorkspaceBoundaryViolation),
            path_starts_with(self.plan_path_view(), self.workspace_root_view()) ==> match contents {
                Err(e) => r == Err::<PlanDocument, AlfredError>(e),
                Ok(raw) => match parse_document_spec(raw@) {
                    Ok(m) => r is Ok && r->Ok_0@ == m,
                    Err(_) => r is Err && is_parse_failure(r->Err_0, self.plan_path_view(), raw@),
                },
            },
    {
        match self.ensure_plan_is_within_workspace() {
            Err(e) => {
                return Err(e);
            },
            Ok(()) => {},
        }
        let raw = match contents {
            Err(e) => {
                return Err(e);
            },
            Ok(raw) => raw,
        };
        match parse_plan_document(raw.as_str()) {
            Ok(doc) => Ok(doc),
            Err(e) => {
                let mut m = String::from_str("failed to parse plan file ");
                m.append(self.plan_path.as_str());
                m.append(": ");
                m.append(e.message().as_str());
                Err(AlfredError::InvalidArgument(m))
            },
        }
    }

    /// The plan items, in id order.
    pub fn read_items(&self, contents: Result<String, AlfredError>) -> (r: Result<
        Vec<PlanItem>,
        AlfredError,
    >)
        ensures
            !path_starts_with(self.plan_path_view(), self.workspace_root_view()) ==> (r is Err
                && r->Err_0 is WorkspaceBoundaryViolation),
            path_starts_with(self.plan_path_view(), self.workspace_root_view()) ==> match contents {
                Err(e) => r == Err::<Vec<PlanItem>, AlfredError>(e),
                Ok(raw) => match parse_document_spec(raw@) {
                    Ok(m) => r is Ok && item_views(r->Ok_0@) == m.items,
                    Err(_) => r is Err && is_parse_failure(r->Err_0, self.plan_path_view(), raw@),
                },
            },
    {
        match self.read_document(contents) {
            Ok(doc) => Ok(doc.items),
            Err(e) => Err(e),
        }
    }

    /// Sets the status of the item with id `id` in place (its checkbox and `Status:`
    /// lines; every other character of the plan stays); returns the text to write. What
    /// that text reads back as: `plan_round_trip::lemma_read_after_status_update`.
    pub fn update_status(
        &self,
        contents: Result<String, AlfredError>,
        id: u64,
        status: PlanStatus,
    ) -> (r: Result<String, AlfredError>)
        ensures
            !path_starts_with(self.plan_path_view(), self.workspace_root_view()) ==> (r is Err
                && r->Err_0 is WorkspaceBoundaryViolation),
            path_starts_with(self.plan_path_view(), self.workspace_root_view()) ==> match contents {
                Err(e) => r == Err::<String, AlfredError>(e),
                Ok(raw) => match parse_document_spec(raw@) {
                    Err(_) => r is Err && is_parse_failure(r->Err_0, self.plan_path_view(), raw@),
                    Ok(m) => match block_with_id(
                        lines_of(raw@),
                        heading_indices(lines_of(raw@)),
                        id,
                        0,
                    ) {
                        None => r is Err && error_with(
                            r->Err_0,
                            ErrorKind::NotFound,
                            not_found_text(id),
                        ),
                        Some(p) => r is Ok && r->Ok_0@ == status_updated_text(raw@, p, status),
                    },
                },
            },
    {
        match self.ensure_plan_is_within_workspace() {
            Err(e) => {
                return Err(e);
            },
            Ok(()) => {},
        }
        let raw = match contents {
            Err(e) => {
                return Err(e);
            },
            Ok(raw) => raw,
        };
        let copy = raw.clone();
        match self.read_document(Ok(copy)) {
            Err(e) => {
                return Err(e);
            },
            Ok(_) => {},
        }
        match status_edit(raw.as_str(), id, status) {
            None => Err(AlfredError::NotFound(text_with_id("plan item id not found: ", id))),
            Some(text) => Ok(text),
        }
    }

    /// Replaces the first item with the same id; returns the text to write. What that text
    /// reads back as: `plan_round_trip::lemma_read_after_edit`.
    pub fn edit_item(&self, contents: Result<String, AlfredError>, item: PlanItem) -> (r: Result<
        String,
        AlfredError,
    >)
        ensures
            item_problem(item@) is Some ==> (r is Err && error_with(
                r->Err_0,
                ErrorKind::InvalidArgument,
                problem_text(item_problem(item@)->0),
            )),
            item_problem(item@) is None && !path_starts_with(
                self.plan_path_view(),
                self.workspace_root_view(),
            ) ==> (r is Err && r->Err_0 is WorkspaceBoundaryViolation),
            item_problem(item@) is None && path_starts_with(
                self.plan_path_view(),
                self.workspace_root_view(),
            ) ==> match contents {
                Err(e) => r == Err::<String, AlfredError>(e),
                Ok(raw) => match parse_document_spec(raw@) {
                    Err(_) => r is Err && is_parse_failure(r->Err_0, self.plan_path_view(), raw@),
                    Ok(m) => match first_with_id(m.items, item.id) {
                        None => r is Err && error_with(
                            r->Err_0,
                            ErrorKind::NotFound,
                            not_found_text(item.id),
                        ),
                        Some(k) => r is Ok && r->Ok_0@ == rendered_document(
                            DocumentModel { preamble: m.preamble, items: m.items.update(k, item@) },
                        ),
                    },
                },
            },
    {
        match validate_item(&item) {
            Err(p) => {
                return Err(AlfredError::InvalidArgument(p.message().to_string()));
            },
            Ok(()) => {},
        }
        let mut doc = match self.read_document(contents) {
            Err(e) => {
                return Err(e);
            },
            Ok(d) => d,
        };
        proof {
            lemma_first_with_id(item_views(doc.items@), item.id);
        }
        let k = match position_of(&doc.items, item.id) {
            None => {
                return Err(
                    AlfredError::NotFound(text_with_id("plan item id not found: ", item.id)),
                );
            },
            Some(k) => k,
        };
        let ghost before = item_views(doc.items@);
        let ghost new_item = item@;
        doc.items.set(k, item);
        assert(item_views(doc.items@) =~= before.update(k as int, new_item));
        Ok(render_plan_document(&doc))
    }

    /// Appends an item under the next id (one past the largest in use); returns that id
    /// and the text to write. What that text reads back as:
    /// `plan_round_trip::lemma_read_after_add`.
    pub fn add_item(&self, contents: Result<String, AlfredError>, item: PlanItem) -> (r: Result<
        (u64, String),
        AlfredError,
    >)
        ensures
            common_problem(item@) is Some ==> (r is Err && error_with(
                r->Err_0,
                ErrorKind::InvalidArgument,
                problem_text(common_problem(item@)->0),
            )),
            common_problem(item@) is None && !path_starts_with(
                self.plan_path_view(),
                self.workspace_root_view(),
            ) ==> (r is Err && r->Err_0 is WorkspaceBoundaryViolation),
            common_problem(item@) is None && path_starts_with(
                self.plan_path_view(),
                self.workspace_root_view(),
            ) ==> match contents {
                Err(e) => r == Err::<(u64, String), AlfredError>(e),
                Ok(raw) => match parse_document_spec(raw@) {
                    Err(_) => r is Err && is_parse_failure(r->Err_0, self.plan_path_view(), raw@),
                    Ok(m) => if max_id(m.items) == u64::MAX {
                        r is Err && r->Err_0 is Internal
                    } else {
                        r is Ok && r->Ok_0.0 == max_id(m.items) + 1 && r->Ok_0.1@
                            == rendered_document(
                            DocumentModel {
                                preamble: m.preamble,
                                items: m.items.push(ItemModel { id: r->Ok_0.0, ..item@ }),
                            },
                        )
                    },
                },
            },
    {
        match validate_item_for_add(&item) {
            Err(p) => {
                return Err(AlfredError::InvalidArgument(p.message().to_string()));
            },
            Ok(()) => {},
        }
        let mut doc = match self.read_document(contents) {
            Err(e) => {
                return Err(e);
            },
            Ok(d) => d,
        };
        let largest = largest_id(&doc.items);
        if largest == u64::MAX {
            return Err(AlfredError::Internal("plan item ids are exhausted".to_string()));
        }
        let next_id = largest + 1;
        let mut item = item;
        item.id = next_id;
        let ghost before = item_views(doc.items@);
        let ghost added = item@;
        doc.items.push(item);
        assert(item_views(doc.items@) =~= before.push(added));
        Ok((next_id, render_plan_document(&doc)))
    }

    /// Removes every item with id `id`; returns the text to write. What that text reads
    /// back as: `plan_round_trip::lemma_read_after_delete`.
    pub fn delete_item(&self, contents: Result<String, AlfredError>, id: u64) -> (r: Result<
        String,
        AlfredError,
    >)
        ensures
            !path_starts_with(self.plan_path_view(), self.workspace_root_view()) ==> (r is Err
                && r->Err_0 is WorkspaceBoundaryViolation),
            path_starts_with(self.plan_path_view(), self.workspace_root_view()) ==> match contents {
                Err(e) => r == Err::<String, AlfredError>(e),
                Ok(raw) => match parse_document_spec(raw@) {
                    Err(_) => r is Err && is_parse_failure(r->Err_0, self.plan_path_view(), raw@),
                    Ok(m) => if without_id(m.items, id).len() == m.items.len() {
                        r is Err && error_with(r->Err_0, ErrorKind::NotFound, not_found_text(id))
                    } else {
                        r is Ok && r->Ok_0@ == rendered_document(
                            DocumentModel { preamble: m.preamble, items: without_id(m.items, id) },
                        )
                    },
                },
            },
    {
        let doc = match self.read_document(contents) {
            Err(e) => {
                return Err(e);
            },
            Ok(d) => d,
        };
        let starting_len = doc.items.len();
        let preamble = doc.preamble;
        let items = retain_other_ids(doc.items, id);
        if items.len() == starting_len {
            return Err(AlfredError::NotFound(text_with_id("plan item id not found: ", id)));
        }
        Ok(render_plan_document(&PlanDocument { preamble, items }))
    }
}

/// An added item's id, one past the largest in use, belongs to no existing item.
pub proof fn lemma_next_id_is_fresh(items: Seq<ItemModel>)
    requires
        max_id(items) < u64::MAX,
    ensures
        forall|j: int| 0 <= j < items.len() ==> #[trigger] items[j].id != max_id(items) + 1,
        first_with_id(items, (max_id(items) + 1) as u64) is None,
{
    lemma_max_id(items);
    lemma_first_with_id(items, (max_id(items) + 1) as u64);
}

/// After a deletion no item carries the deleted id, and every other item is kept in order.
pub proof fn lemma_delete_removes_only_that_id(items: Seq<ItemModel>, id: u64)
    ensures
        forall|j: int| 0 <= j < without_id(items, id).len() ==> #[trigger] without_id(items, id)[j].id != id,
        first_with_id(without_id(items, id), id) is None,
        without_id(items, id).len() <= items.len(),
        (forall|j: int| 0 <= j < items.len() ==> #[trigger] items[j].id != id) ==> without_id(items, id) == items,
    decreases items.len(),
{
    if items.len() > 0 {
        lemma_delete_removes_only_that_id(items.drop_last(), id);
        let prev = without_id(items.drop_last(), id);
        if items.last().id != id {
            assert forall|j: int| 0 <= j < prev.push(items.last()).len() implies #[trigger] prev.push(items.last())[j].id != id by {
                if j < prev.len() {
                    assert(prev.push(items.last())[j] == prev[j]);
                }
            }
            if forall|j: int| 0 <= j < items.len() ==> #[trigger] items[j].id != id {
                assert forall|j: int| 0 <= j < items.drop_last().len() implies #[trigger] items.drop_last()[j].id != id by {
                    assert(items.drop_last()[j] == items[j]);
                }
                assert(items.drop_last().push(items.last()) =~= items);
            }
        } else {
            assert(items[items.len() - 1].id == id);
        }
    }
    lemma_first_with_id(without_id(items, id), id);
}

} // verus!
