//! Reading back what was written: a plan item rendered to Markdown and read again is the
//! same item, and a rendered plan document reads back as the same document, for items whose
//! text fields are trimmed single lines and preambles that hold no item heading.

use vstd::prelude::*;

use crate::services::plan_store::{
    card_token, cards_of, deliverable_lines, deliverable_prefix, digit_run, field_line,
    field_prefix, field_step, first_duplicate, fold_fields, heading_indices, heading_parts,
    insert_position, item_block, lemma_heading_indices, mark_of, parse_blocks, parse_document_spec,
    rendered_document, DocumentModel, first_with_id, lemma_first_with_id, lemma_max_id, max_id,
    without_id, is_status_line, status_field_text, status_updated_text, block_with_id,
    block_end, block_has_status, edited_piece, marked_heading, heading_id, lemma_heading_rest,
    lemma_block_with_id,
    item_problem, no_fields, non_empty, sort_by_id,
    non_empty_entries, parse_item_spec, quoted_cards, rendered_item, status_of, status_text,
    FieldsModel, ItemModel, ParseErrorModel, PlanStatus,
};
use crate::text::{
    ascii_lower_seq, decimal_chars, leading_count, trim_end_char_of,
    trim_matches_spec, first_index_of, is_digit, unicode_decimal, lemma_decimal_digits, lemma_parse_decimal,
    lemma_leading_space_bound, lemma_split_on_nonempty, lemma_trailing_space_bound, is_space,
    join_with, leading_space, lines_of, split_on, starts_with_spec,
    strip_cr, trailing_space, trim_spec, ascii_lower, lemma_first_index_of,
};

verus! {

// ---------------------------------------------------------------------------
// Lines
// ---------------------------------------------------------------------------

/// Lines, each followed by a newline.
pub open spec fn joined_lines(ls: Seq<Seq<char>>) -> Seq<char>
    decreases ls.len(),
{
    if ls.len() == 0 {
        Seq::empty()
    } else {
        joined_lines(ls.drop_last()) + ls.last() + seq!['\n']
    }
}

/// A single line: no newline in it.
pub open spec fn one_line(s: Seq<char>) -> bool {
    !s.contains('\n')
}

proof fn lemma_split_extend(x: Seq<char>, l: Seq<char>, sep: char)
    requires
        !l.contains(sep),
    ensures
        split_on(x + l, sep) == split_on(x, sep).update(
            split_on(x, sep).len() - 1,
            split_on(x, sep).last() + l,
        ),
    decreases l.len(),
{
    lemma_split_on_nonempty(x, sep);
    let p = split_on(x, sep);
    if l.len() == 0 {
        assert(x + l =~= x);
        assert(p.last() + l =~= p.last());
        assert(p.update(p.len() - 1, p.last() + l) =~= p);
    } else {
        let s = x + l;
        assert(s.drop_last() =~= x + l.drop_last());
        assert(!l.drop_last().contains(sep)) by {
            if l.drop_last().contains(sep) {
                let k = choose|k: int| 0 <= k < l.drop_last().len() && l.drop_last()[k] == sep;
                assert(l[k] == sep);
            }
        }
        assert(l[l.len() - 1] != sep);
        lemma_split_extend(x, l.drop_last(), sep);
        assert(s.last() == l.last());
        let r = split_on(s.drop_last(), sep);
        assert(r.last() == p.last() + l.drop_last());
        assert(r.last().push(l.last()) =~= p.last() + l);
        assert(r.update(r.len() - 1, r.last().push(l.last())) =~= p.update(
            p.len() - 1,
            p.last() + l,
        ));
    }
}

/// Splitting `a`, a separator, then a piece without separators.
proof fn lemma_split_sep_piece(a: Seq<char>, b: Seq<char>, sep: char)
    requires
        !b.contains(sep),
    ensures
        split_on(a + seq![sep] + b, sep) == split_on(a, sep).push(b),
{
    let s = a + seq![sep];
    assert(s.drop_last() =~= a);
    assert(s.last() == sep);
    lemma_split_extend(s, b, sep);
    let q = split_on(a, sep).push(Seq::<char>::empty());
    assert(q.last() + b =~= b);
    assert(q.update(q.len() - 1, q.last() + b) =~= split_on(a, sep).push(b));
}

proof fn lemma_split_joined(ls: Seq<Seq<char>>)
    requires
        forall|i: int| 0 <= i < ls.len() ==> one_line(#[trigger] ls[i]),
    ensures
        split_on(joined_lines(ls), '\n') == ls.push(Seq::<char>::empty()),
    decreases ls.len(),
{
    if ls.len() == 0 {
        assert(split_on(Seq::<char>::empty(), '\n') =~= seq![Seq::<char>::empty()]);
        assert(ls.push(Seq::<char>::empty()) =~= seq![Seq::<char>::empty()]);
    } else {
        let d = ls.drop_last();
        assert forall|i: int| 0 <= i < d.len() implies one_line(#[trigger] d[i]) by {
            assert(d[i] == ls[i]);
        }
        lemma_split_joined(d);
        let j = joined_lines(d);
        let s = joined_lines(ls);
        assert(s == j + ls.last() + seq!['\n']);
        assert(s.drop_last() =~= j + ls.last());
        assert(one_line(ls[ls.len() - 1]));
        lemma_split_extend(j, ls.last(), '\n');
        let p = d.push(Seq::<char>::empty());
        assert(p.last() + ls.last() =~= ls.last());
        assert(p.update(p.len() - 1, p.last() + ls.last()) =~= ls);
    }
}

/// A line that `str::lines` gives back whole: no newline, and no carriage return at its
/// end.
pub open spec fn plain_line(s: Seq<char>) -> bool {
    one_line(s) && !(s.len() > 0 && s.last() == '\r')
}

/// Lines joined with newlines split back into the same lines.
pub proof fn lemma_lines_of_joined(ls: Seq<Seq<char>>)
    requires
        forall|i: int| 0 <= i < ls.len() ==> plain_line(#[trigger] ls[i]),
    ensures
        lines_of(joined_lines(ls)) == ls,
{
    assert forall|i: int| 0 <= i < ls.len() implies one_line(#[trigger] ls[i]) by {
        assert(plain_line(ls[i]));
    }
    lemma_split_joined(ls);
    let pieces = ls.push(Seq::<char>::empty());
    assert(pieces.take(pieces.len() - 1) =~= ls);
    assert(ls.map_values(|p: Seq<char>| strip_cr(p)) =~= ls) by {
        assert forall|i: int| 0 <= i < ls.len() implies strip_cr(ls[i]) == ls[i] by {
            assert(plain_line(ls[i]));
        }
    }
}

/// Joining two runs of lines.
pub proof fn lemma_joined_append(a: Seq<Seq<char>>, b: Seq<Seq<char>>)
    ensures
        joined_lines(a + b) == joined_lines(a) + joined_lines(b),
    decreases b.len(),
{
    if b.len() == 0 {
        assert(a + b =~= a);
        assert(joined_lines(a) + joined_lines(b) =~= joined_lines(a));
    } else {
        lemma_joined_append(a, b.drop_last());
        assert((a + b).drop_last() =~= a + b.drop_last());
        assert((a + b).last() == b.last());
        assert(joined_lines(a + b) =~= joined_lines(a) + joined_lines(b));
    }
}

// ---------------------------------------------------------------------------
// Trimming
// ---------------------------------------------------------------------------

/// A trimmed single line.
pub open spec fn clean(s: Seq<char>) -> bool {
    trim_spec(s) == s && one_line(s)
}

/// A trimmed text has no whitespace at either end.
pub proof fn lemma_trimmed_ends(s: Seq<char>)
    requires
        trim_spec(s) == s,
        s.len() > 0,
    ensures
        !is_space(s[0]),
        !is_space(s.last()),
        leading_space(s) == 0,
        trailing_space(s) == 0,
{
    lemma_leading_space_bound(s);
    let t = s.subrange(leading_space(s) as int, s.len() as int);
    lemma_trailing_space_bound(t);
    assert(leading_space(s) == 0);
    assert(t =~= s);
    assert(trailing_space(s) == 0);
}

/// Text without whitespace at either end is its own trim.
pub proof fn lemma_trim_of_solid(s: Seq<char>)
    requires
        s.len() == 0 || (!is_space(s[0]) && !is_space(s.last())),
    ensures
        trim_spec(s) == s,
{
    if s.len() > 0 {
        assert(leading_space(s) == 0);
        assert(s.subrange(0, s.len() as int) =~= s);
        assert(trailing_space(s) == 0);
    } else {
        assert(s.subrange(0, 0) =~= s);
    }
}

/// Whitespace before a trimmed text is trimmed away.
pub proof fn lemma_trim_after_space(w: char, s: Seq<char>)
    requires
        is_space(w),
        trim_spec(s) == s,
    ensures
        trim_spec(seq![w] + s) == s,
{
    let t = seq![w] + s;
    assert(t.drop_first() =~= s);
    if s.len() > 0 {
        lemma_trimmed_ends(s);
        assert(leading_space(t) == 1);
        let u = t.subrange(1, t.len() as int);
        assert(u =~= s);
    } else {
        assert(leading_space(s) == 0);
        assert(leading_space(t) == 1);
        assert(t.subrange(1, t.len() as int) =~= s);
        assert(trailing_space(s) == 0);
        assert(s.subrange(0, 0) =~= s);
    }
}

// ---------------------------------------------------------------------------
// The lines of a rendered item
// ---------------------------------------------------------------------------

/// A `    - Key: value` field line.
pub open spec fn field_text(key: Seq<char>, value: Seq<char>) -> Seq<char> {
    seq![' ', ' ', ' ', ' ', '-', ' '] + key + seq![':', ' '] + value
}

/// A `        - deliverable` line.
pub open spec fn deliverable_text(d: Seq<char>) -> Seq<char> {
    seq![' ', ' ', ' ', ' ', ' ', ' ', ' ', ' ', '-', ' '] + trim_spec(d)
}

/// The heading line of an item.
pub open spec fn heading_text(item: ItemModel) -> Seq<char> {
    decimal_chars(item.id as nat) + seq!['.', ' ', '[', mark_of(item.status), ']', ' '] + trim_spec(
        item.title,
    )
}

/// An optional field line.
pub open spec fn optional_field(key: Seq<char>, value: Option<Seq<char>>) -> Seq<Seq<char>> {
    match value {
        Some(v) => seq![field_text(key, trim_spec(v))],
        None => Seq::empty(),
    }
}

/// The lines of a rendered item.
pub open spec fn item_lines(item: ItemModel) -> Seq<Seq<char>> {
    seq![
        heading_text(item),
        field_text("Priority"@, decimal_chars(item.priority as nat)),
        field_text("Cards"@, quoted_cards(item.cards)),
        field_text("Description"@, trim_spec(item.description)),
        field_prefix_text() + "Deliverables:"@,
    ] + item.deliverables.map_values(|d: Seq<char>| deliverable_text(d)) + optional_field(
        "Acceptance Criteria"@,
        item.acceptance_criteria,
    ) + optional_field("Notes"@, item.notes) + seq![
        field_text("Status"@, status_text(item.status)),
    ]
}

/// The indentation of a field line.
pub open spec fn field_prefix_text() -> Seq<char> {
    seq![' ', ' ', ' ', ' ', '-', ' ']
}

proof fn lemma_joined_one(x: Seq<char>)
    ensures
        joined_lines(seq![x]) == x + seq!['\n'],
{
    let l = seq![x];
    assert(l.drop_last() =~= Seq::<Seq<char>>::empty());
    assert(l.last() == x);
    assert(joined_lines(l.drop_last()) == Seq::<char>::empty());
    assert(Seq::<char>::empty() + x =~= x);
}

proof fn lemma_deliverable_lines(ds: Seq<Seq<char>>)
    ensures
        deliverable_lines(ds) == joined_lines(ds.map_values(|d: Seq<char>| deliverable_text(d))),
    decreases ds.len(),
{
    reveal_strlit("        - ");
    reveal_strlit("\n");
    if ds.len() > 0 {
        lemma_deliverable_lines(ds.drop_last());
        let m = ds.map_values(|d: Seq<char>| deliverable_text(d));
        assert(m.drop_last() =~= ds.drop_last().map_values(|d: Seq<char>| deliverable_text(d)));
        assert(m.last() == deliverable_text(ds.last()));
        assert(deliverable_lines(ds) =~= joined_lines(m));
    } else {
        assert(ds.map_values(|d: Seq<char>| deliverable_text(d)) =~= Seq::<Seq<char>>::empty());
    }
}

proof fn lemma_item_literals()
    ensures
        ". ["@ =~= seq!['.', ' ', '['],
        "x"@ =~= seq!['x'],
        " "@ =~= seq![' '],
        "] "@ =~= seq![']', ' '],
        "\n"@ =~= seq!['\n'],
        "    - Priority: "@ =~= field_prefix_text() + "Priority"@ + seq![':', ' '],
        "    - Cards: "@ =~= field_prefix_text() + "Cards"@ + seq![':', ' '],
        "    - Description: "@ =~= field_prefix_text() + "Description"@ + seq![':', ' '],
        "    - Deliverables:\n"@ =~= field_prefix_text() + "Deliverables:"@ + seq!['\n'],
        "    - Acceptance Criteria: "@ =~= field_prefix_text() + "Acceptance Criteria"@ + seq![
            ':',
            ' ',
        ],
        "    - Notes: "@ =~= field_prefix_text() + "Notes"@ + seq![':', ' '],
        "    - Status: "@ =~= field_prefix_text() + "Status"@ + seq![':', ' '],
{
    reveal_strlit(". [");
    reveal_strlit("x");
    reveal_strlit(" ");
    reveal_strlit("] ");
    reveal_strlit("\n");
    reveal_strlit("    - Priority: ");
    reveal_strlit("    - Cards: ");
    reveal_strlit("    - Description: ");
    reveal_strlit("    - Deliverables:\n");
    reveal_strlit("    - Acceptance Criteria: ");
    reveal_strlit("    - Notes: ");
    reveal_strlit("    - Status: ");
    reveal_strlit("Priority");
    reveal_strlit("Cards");
    reveal_strlit("Description");
    reveal_strlit("Deliverables:");
    reveal_strlit("Acceptance Criteria");
    reveal_strlit("Notes");
    reveal_strlit("Status");
}

proof fn lemma_joined_head(a: Seq<char>, b: Seq<char>, c: Seq<char>, d: Seq<char>, e: Seq<char>)
    ensures
        joined_lines(seq![a, b, c, d, e]) == a + seq!['\n'] + b + seq!['\n'] + c + seq!['\n'] + d
            + seq!['\n'] + e + seq!['\n'],
{
    lemma_joined_one(a);
    lemma_joined_append(seq![a], seq![b]);
    lemma_joined_one(b);
    assert(seq![a] + seq![b] =~= seq![a, b]);
    lemma_joined_append(seq![a, b], seq![c]);
    lemma_joined_one(c);
    assert(seq![a, b] + seq![c] =~= seq![a, b, c]);
    lemma_joined_append(seq![a, b, c], seq![d]);
    lemma_joined_one(d);
    assert(seq![a, b, c] + seq![d] =~= seq![a, b, c, d]);
    lemma_joined_append(seq![a, b, c, d], seq![e]);
    lemma_joined_one(e);
    assert(seq![a, b, c, d] + seq![e] =~= seq![a, b, c, d, e]);
    assert(joined_lines(seq![a, b, c, d, e]) =~= a + seq!['\n'] + b + seq!['\n'] + c + seq!['\n']
        + d + seq!['\n'] + e + seq!['\n']);
}

proof fn lemma_joined_optional(key: Seq<char>, value: Option<Seq<char>>)
    ensures
        joined_lines(optional_field(key, value)) == match value {
            Some(v) => field_text(key, trim_spec(v)) + seq!['\n'],
            None => Seq::<char>::empty(),
        },
{
    match value {
        Some(v) => {
            lemma_joined_one(field_text(key, trim_spec(v)));
        },
        None => {},
    }
}

/// A rendered item is its lines, each followed by a newline.
#[verifier::rlimit(40)]
pub proof fn lemma_rendered_item_lines(item: ItemModel)
    ensures
        rendered_item(item) == joined_lines(item_lines(item)),
{
    lemma_item_literals();
    let nl = seq!['\n'];
    let mark: Seq<char> = if item.status == PlanStatus::Completed {
        "x"@
    } else {
        " "@
    };
    assert(mark =~= seq![mark_of(item.status)]);
    let h = heading_text(item);
    let fp = field_text("Priority"@, decimal_chars(item.priority as nat));
    let fc = field_text("Cards"@, quoted_cards(item.cards));
    let fd = field_text("Description"@, trim_spec(item.description));
    let dh = field_prefix_text() + "Deliverables:"@;
    let fs = field_text("Status"@, status_text(item.status));
    let acc = optional_field("Acceptance Criteria"@, item.acceptance_criteria);
    let notes = optional_field("Notes"@, item.notes);
    let dl = item.deliverables.map_values(|d: Seq<char>| deliverable_text(d));

    let r1 = decimal_chars(item.id as nat) + ". ["@ + mark + "] "@ + trim_spec(item.title) + "\n"@;
    let j1 = h + nl;
    assert(r1 =~= j1);
    let r2 = r1 + "    - Priority: "@ + decimal_chars(item.priority as nat) + "\n"@;
    let j2 = j1 + fp + nl;
    assert(r2 =~= j2);
    let r3 = r2 + "    - Cards: "@ + quoted_cards(item.cards) + "\n"@;
    let j3 = j2 + fc + nl;
    assert(r3 =~= j3);
    let r4 = r3 + "    - Description: "@ + trim_spec(item.description) + "\n"@;
    let j4 = j3 + fd + nl;
    assert(r4 =~= j4);
    let r5 = r4 + "    - Deliverables:\n"@;
    let j5 = j4 + dh + nl;
    assert(r5 =~= j5);
    lemma_deliverable_lines(item.deliverables);
    let r6 = r5 + deliverable_lines(item.deliverables);
    let j6 = j5 + joined_lines(dl);
    assert(r6 == j6);
    lemma_joined_optional("Acceptance Criteria"@, item.acceptance_criteria);
    let ra: Seq<char> = match item.acceptance_criteria {
        Some(a) => "    - Acceptance Criteria: "@ + trim_spec(a) + "\n"@,
        None => Seq::empty(),
    };
    assert(ra =~= joined_lines(acc));
    lemma_joined_optional("Notes"@, item.notes);
    let rn: Seq<char> = match item.notes {
        Some(n) => "    - Notes: "@ + trim_spec(n) + "\n"@,
        None => Seq::empty(),
    };
    assert(rn =~= joined_lines(notes));
    let r7 = r6 + ra + rn + "    - Status: "@ + status_text(item.status) + "\n"@;
    let j7 = j6 + joined_lines(acc) + joined_lines(notes) + fs + nl;
    assert(r7 =~= j7);
    assert(rendered_item(item) == r7);

    let head = seq![h, fp, fc, fd, dh];
    let tail = seq![fs];
    assert(item_lines(item) == head + dl + acc + notes + tail);
    lemma_joined_append(head + dl + acc + notes, tail);
    lemma_joined_append(head + dl + acc, notes);
    lemma_joined_append(head + dl, acc);
    lemma_joined_append(head, dl);
    lemma_joined_one(fs);
    lemma_joined_head(h, fp, fc, fd, dh);
    assert(joined_lines(head) =~= j5);
    assert(joined_lines(item_lines(item)) =~= j7);
}

// ---------------------------------------------------------------------------
// Reading field lines
// ---------------------------------------------------------------------------

/// A text with a non-whitespace character keeps something when trimmed.
pub proof fn lemma_trim_keeps(s: Seq<char>, i: int)
    requires
        0 <= i < s.len(),
        !is_space(s[i]),
    ensures
        trim_spec(s).len() > 0,
{
    lemma_leading_space_bound(s);
    let l = leading_space(s) as int;
    assert(l <= i);
    let t = s.subrange(l, s.len() as int);
    lemma_trailing_space_bound(t);
    assert(t[i - l] == s[i]);
    assert(trailing_space(t) <= t.len() - 1 - (i - l));
}

proof fn lemma_first_index_after(a: Seq<char>, b: Seq<char>, c: char)
    requires
        !a.contains(c),
    ensures
        first_index_of(a + seq![c] + b, c) == Some(a.len() as int),
    decreases a.len(),
{
    let s = a + seq![c] + b;
    if a.len() == 0 {
        assert(s[0] == c);
    } else {
        assert(s[0] == a[0]);
        assert(a[0] != c);
        assert(!a.drop_first().contains(c)) by {
            if a.drop_first().contains(c) {
                let k = choose|k: int| 0 <= k < a.drop_first().len() && a.drop_first()[k] == c;
                assert(a[k + 1] == c);
            }
        }
        lemma_first_index_after(a.drop_first(), b, c);
        assert(s.drop_first() =~= a.drop_first() + seq![c] + b);
    }
}

/// A field key as the renderer writes it: a non-empty name without colons, newlines or
/// whitespace at either end.
pub open spec fn key_ok(k: Seq<char>) -> bool {
    &&& k.len() > 0
    &&& !k.contains(':')
    &&& !k.contains('\n')
    &&& !is_space(k[0])
    &&& !is_space(k.last())
}

/// What a field line reads as: its key and its value, and it is no deliverables header.
proof fn lemma_field_parts(k: Seq<char>, v: Seq<char>)
    requires
        key_ok(k),
        trim_spec(v) == v,
    ensures
        starts_with_spec(field_text(k, v), field_prefix()),
        !starts_with_spec(field_text(k, v), deliverable_prefix()),
        trim_spec(field_text(k, v)).len() > 0,
        field_text(k, v).skip(6) == k + seq![':', ' '] + v,
        ascii_lower_seq(field_text(k, v).skip(6)) != ascii_lower_seq("Deliverables:"@),
        first_index_of(field_text(k, v).skip(6), ':') == Some(k.len() as int),
        (k + seq![':', ' '] + v).take(k.len() as int) == k,
        trim_spec(k) == k,
        trim_spec((k + seq![':', ' '] + v).skip(k.len() as int + 1)) == v,
{
    let line = field_text(k, v);
    let body = k + seq![':', ' '] + v;
    assert(line.subrange(0, 6) =~= field_prefix());
    assert(line[4] == '-');
    assert(deliverable_prefix()[4] == ' ');
    lemma_trim_keeps(line, 4);
    assert(line.skip(6) =~= body);
    assert(body =~= k + seq![':'] + (seq![' '] + v));
    lemma_first_index_after(k, seq![' '] + v, ':');
    assert(body.take(k.len() as int) =~= k);
    lemma_trim_of_solid(k);
    assert(body.skip(k.len() as int + 1) =~= seq![' '] + v);
    lemma_trim_after_space(' ', v);
    reveal_strlit("Deliverables:");
    let d = "Deliverables:"@;
    if ascii_lower_seq(body) == ascii_lower_seq(d) {
        assert(d.len() == 13);
        assert(ascii_lower_seq(body).len() == body.len());
        assert(ascii_lower_seq(d).len() == d.len());
        assert(body.len() == 13);
        assert(body[k.len() as int + 1] == ' ');
        assert(ascii_lower_seq(body)[k.len() as int + 1] == ' ');
        assert(ascii_lower_seq(d)[k.len() as int + 1] != ' ');
    }
}

proof fn lemma_key_literals()
    ensures
        key_ok("Priority"@),
        key_ok("Cards"@),
        key_ok("Description"@),
        key_ok("Acceptance Criteria"@),
        key_ok("Notes"@),
        key_ok("Status"@),
        ascii_lower_seq("Priority"@) == "priority"@,
        ascii_lower_seq("Cards"@) == "cards"@,
        ascii_lower_seq("Description"@) == "description"@,
        ascii_lower_seq("Acceptance Criteria"@) == "acceptance criteria"@,
        ascii_lower_seq("Notes"@) == "notes"@,
        ascii_lower_seq("Status"@) == "status"@,
        "cards"@ != "priority"@,
        "description"@ != "priority"@,
        "description"@ != "cards"@,
        "acceptance criteria"@ != "priority"@,
        "acceptance criteria"@ != "cards"@,
        "acceptance criteria"@ != "description"@,
        "notes"@ != "priority"@,
        "notes"@ != "cards"@,
        "notes"@ != "description"@,
        "notes"@ != "acceptance criteria"@,
        "status"@ != "priority"@,
        "status"@ != "cards"@,
        "status"@ != "description"@,
        "status"@ != "acceptance criteria"@,
        "status"@ != "notes"@,
{
    reveal_strlit("Priority");
    reveal_strlit("Cards");
    reveal_strlit("Description");
    reveal_strlit("Acceptance Criteria");
    reveal_strlit("Notes");
    reveal_strlit("Status");
    reveal_strlit("priority");
    reveal_strlit("cards");
    reveal_strlit("description");
    reveal_strlit("acceptance criteria");
    reveal_strlit("notes");
    reveal_strlit("status");
    assert(ascii_lower_seq("Priority"@) =~= "priority"@);
    assert(ascii_lower_seq("Cards"@) =~= "cards"@);
    assert(ascii_lower_seq("Description"@) =~= "description"@);
    assert(ascii_lower_seq("Acceptance Criteria"@) =~= "acceptance criteria"@);
    assert(ascii_lower_seq("Notes"@) =~= "notes"@);
    assert(ascii_lower_seq("Status"@) =~= "status"@);
    assert("notes"@[0] != "cards"@[0]);
    assert(!"Priority"@.contains(':')) by {
        assert forall|i: int| 0 <= i < "Priority"@.len() implies "Priority"@[i] != ':' by {}
    }
    assert(!"Priority"@.contains('\n')) by {
        assert forall|i: int| 0 <= i < "Priority"@.len() implies "Priority"@[i] != '\n' by {}
    }
    assert(!"Cards"@.contains(':')) by {
        assert forall|i: int| 0 <= i < "Cards"@.len() implies "Cards"@[i] != ':' by {}
    }
    assert(!"Cards"@.contains('\n')) by {
        assert forall|i: int| 0 <= i < "Cards"@.len() implies "Cards"@[i] != '\n' by {}
    }
    assert(!"Description"@.contains(':')) by {
        assert forall|i: int| 0 <= i < "Description"@.len() implies "Description"@[i] != ':' by {}
    }
    assert(!"Description"@.contains('\n')) by {
        assert forall|i: int| 0 <= i < "Description"@.len() implies "Description"@[i] != '\n' by {}
    }
    assert(!"Acceptance Criteria"@.contains(':')) by {
        assert forall|i: int| 0 <= i < "Acceptance Criteria"@.len() implies "Acceptance Criteria"@[i]
            != ':' by {}
    }
    assert(!"Acceptance Criteria"@.contains('\n')) by {
        assert forall|i: int| 0 <= i < "Acceptance Criteria"@.len() implies "Acceptance Criteria"@[i]
            != '\n' by {}
    }
    assert(!"Notes"@.contains(':')) by {
        assert forall|i: int| 0 <= i < "Notes"@.len() implies "Notes"@[i] != ':' by {}
    }
    assert(!"Notes"@.contains('\n')) by {
        assert forall|i: int| 0 <= i < "Notes"@.len() implies "Notes"@[i] != '\n' by {}
    }
    assert(!"Status"@.contains(':')) by {
        assert forall|i: int| 0 <= i < "Status"@.len() implies "Status"@[i] != ':' by {}
    }
    assert(!"Status"@.contains('\n')) by {
        assert forall|i: int| 0 <= i < "Status"@.len() implies "Status"@[i] != '\n' by {}
    }
}

/// A field line read at any point of an item body is read as a field.
proof fn lemma_step_field(id: u64, st: FieldsModel, k: Seq<char>, v: Seq<char>)
    requires
        key_ok(k),
        trim_spec(v) == v,
    ensures
        field_step(id, st, field_text(k, v)) == field_line(
            id,
            FieldsModel { in_deliverables: false, ..st },
            field_text(k, v),
        ),
{
    lemma_field_parts(k, v);
}

proof fn lemma_digits_solid(n: nat)
    ensures
        trim_spec(decimal_chars(n)) == decimal_chars(n),
{
    lemma_decimal_digits(n);
    let d = decimal_chars(n);
    assert(is_digit(d[0]));
    assert(is_digit(d[d.len() - 1]));
    lemma_trim_of_solid(d);
}

proof fn lemma_read_priority(id: u64, st: FieldsModel, p: u8)
    ensures
        field_step(id, st, field_text("Priority"@, decimal_chars(p as nat))) == Ok::<
            FieldsModel,
            ParseErrorModel,
        >(FieldsModel { priority: Some(p), in_deliverables: false, ..st }),
{
    lemma_key_literals();
    lemma_digits_solid(p as nat);
    lemma_field_parts("Priority"@, decimal_chars(p as nat));
    lemma_step_field(id, st, "Priority"@, decimal_chars(p as nat));
    lemma_parse_decimal(p as nat, 255);
}

proof fn lemma_read_cards(id: u64, st: FieldsModel, cards: Seq<Seq<char>>)
    requires
        trim_spec(quoted_cards(cards)) == quoted_cards(cards),
        cards_of(quoted_cards(cards)) == cards,
    ensures
        field_step(id, st, field_text("Cards"@, quoted_cards(cards))) == Ok::<
            FieldsModel,
            ParseErrorModel,
        >(FieldsModel { cards: Some(cards), in_deliverables: false, ..st }),
{
    lemma_key_literals();
    lemma_field_parts("Cards"@, quoted_cards(cards));
    lemma_step_field(id, st, "Cards"@, quoted_cards(cards));
}

proof fn lemma_read_description(id: u64, st: FieldsModel, v: Seq<char>)
    requires
        trim_spec(v) == v,
    ensures
        field_step(id, st, field_text("Description"@, v)) == Ok::<FieldsModel, ParseErrorModel>(
            FieldsModel { description: Some(v), in_deliverables: false, ..st },
        ),
{
    lemma_key_literals();
    lemma_field_parts("Description"@, v);
    lemma_step_field(id, st, "Description"@, v);
}

proof fn lemma_read_acceptance(id: u64, st: FieldsModel, v: Seq<char>)
    requires
        trim_spec(v) == v,
    ensures
        field_step(id, st, field_text("Acceptance Criteria"@, v)) == Ok::<
            FieldsModel,
            ParseErrorModel,
        >(FieldsModel { acceptance_criteria: non_empty(v), in_deliverables: false, ..st }),
{
    lemma_key_literals();
    lemma_field_parts("Acceptance Criteria"@, v);
    lemma_step_field(id, st, "Acceptance Criteria"@, v);
}

proof fn lemma_read_notes(id: u64, st: FieldsModel, v: Seq<char>)
    requires
        trim_spec(v) == v,
    ensures
        field_step(id, st, field_text("Notes"@, v)) == Ok::<FieldsModel, ParseErrorModel>(
            FieldsModel { notes: non_empty(v), in_deliverables: false, ..st },
        ),
{
    lemma_key_literals();
    lemma_field_parts("Notes"@, v);
    lemma_step_field(id, st, "Notes"@, v);
}

proof fn lemma_status_words(s: PlanStatus)
    ensures
        trim_spec(status_text(s)) == status_text(s),
        status_of(status_text(s)) == Some(s),
{
    reveal_strlit("planned");
    reveal_strlit("in-progress");
    reveal_strlit("completed");
    reveal_strlit("cancelled");
    let t = status_text(s);
    assert(t.len() > 0);
    assert(!is_space(t[0]));
    assert(!is_space(t[t.len() - 1]));
    lemma_trim_of_solid(t);
    assert(ascii_lower_seq(t) =~= t);
    assert("completed"@[1] != "cancelled"@[1]);
    assert("planned"@.len() != "in-progress"@.len());
    assert("planned"@.len() != "completed"@.len());
    assert("planned"@.len() != "cancelled"@.len());
    assert("in-progress"@.len() != "completed"@.len());
    assert("in-progress"@.len() != "cancelled"@.len());
}

proof fn lemma_read_status(id: u64, st: FieldsModel, s: PlanStatus)
    ensures
        field_step(id, st, field_text("Status"@, status_text(s))) == Ok::<
            FieldsModel,
            ParseErrorModel,
        >(FieldsModel { status: Some(s), in_deliverables: false, ..st }),
{
    lemma_key_literals();
    lemma_status_words(s);
    lemma_field_parts("Status"@, status_text(s));
    lemma_step_field(id, st, "Status"@, status_text(s));
}

proof fn lemma_read_deliverables_header(id: u64, st: FieldsModel)
    ensures
        field_step(id, st, field_prefix_text() + "Deliverables:"@) == Ok::<
            FieldsModel,
            ParseErrorModel,
        >(FieldsModel { in_deliverables: true, ..st }),
{
    reveal_strlit("Deliverables:");
    let line = field_prefix_text() + "Deliverables:"@;
    assert(line.subrange(0, 6) =~= field_prefix());
    assert(line[4] == '-');
    assert(deliverable_prefix()[4] == ' ');
    lemma_trim_keeps(line, 4);
    assert(line.skip(6) =~= "Deliverables:"@);
}

proof fn lemma_read_deliverable(id: u64, st: FieldsModel, d: Seq<char>)
    requires
        st.in_deliverables,
        trim_spec(d) == d,
        d.len() > 0,
    ensures
        field_step(id, st, deliverable_text(d)) == Ok::<FieldsModel, ParseErrorModel>(
            FieldsModel { deliverables: st.deliverables.push(d), ..st },
        ),
{
    let line = deliverable_text(d);
    lemma_trimmed_ends(d);
    assert(line[10] == d[0]);
    lemma_trim_keeps(line, 10);
    assert(line.subrange(0, 10) =~= deliverable_prefix());
    assert(line.skip(10) =~= d);
}

/// Reading a body in two parts.
proof fn lemma_fold_append(id: u64, st: FieldsModel, a: Seq<Seq<char>>, b: Seq<Seq<char>>)
    ensures
        fold_fields(id, st, a + b) == match fold_fields(id, st, a) {
            Err(e) => Err(e),
            Ok(next) => fold_fields(id, next, b),
        },
    decreases a.len(),
{
    if a.len() == 0 {
        assert(a + b =~= b);
    } else {
        assert((a + b)[0] == a[0]);
        assert((a + b).drop_first() =~= a.drop_first() + b);
        match field_step(id, st, a[0]) {
            Err(e) => {},
            Ok(next) => {
                lemma_fold_append(id, next, a.drop_first(), b);
            },
        }
    }
}

proof fn lemma_fold_one(id: u64, st: FieldsModel, l: Seq<char>)
    ensures
        fold_fields(id, st, seq![l]) == field_step(id, st, l),
{
    assert(seq![l].drop_first() =~= Seq::<Seq<char>>::empty());
    assert(seq![l][0] == l);
    match field_step(id, st, l) {
        Err(e) => {},
        Ok(next) => {
            assert(fold_fields(id, next, Seq::<Seq<char>>::empty()) == Ok::<
                FieldsModel,
                ParseErrorModel,
            >(next));
        },
    }
}

/// A deliverable as the reader gives it back: trimmed and non-empty.
pub open spec fn deliverable_ok(d: Seq<char>) -> bool {
    clean(d) && d.len() > 0
}

proof fn lemma_read_deliverables(id: u64, st: FieldsModel, ds: Seq<Seq<char>>)
    requires
        st.in_deliverables,
        forall|i: int| 0 <= i < ds.len() ==> deliverable_ok(#[trigger] ds[i]),
    ensures
        fold_fields(id, st, ds.map_values(|d: Seq<char>| deliverable_text(d))) == Ok::<
            FieldsModel,
            ParseErrorModel,
        >(FieldsModel { deliverables: st.deliverables + ds, ..st }),
    decreases ds.len(),
{
    let m = ds.map_values(|d: Seq<char>| deliverable_text(d));
    if ds.len() == 0 {
        assert(st.deliverables + ds =~= st.deliverables);
        assert(m =~= Seq::<Seq<char>>::empty());
    } else {
        let init = ds.drop_last();
        assert forall|i: int| 0 <= i < init.len() implies deliverable_ok(#[trigger] init[i]) by {
            assert(init[i] == ds[i]);
        }
        lemma_read_deliverables(id, st, init);
        let mi = init.map_values(|d: Seq<char>| deliverable_text(d));
        assert(m =~= mi + seq![deliverable_text(ds.last())]);
        lemma_fold_append(id, st, mi, seq![deliverable_text(ds.last())]);
        let mid = FieldsModel { deliverables: st.deliverables + init, ..st };
        lemma_fold_one(id, mid, deliverable_text(ds.last()));
        assert(deliverable_ok(ds[ds.len() - 1]));
        lemma_read_deliverable(id, mid, ds.last());
        assert((st.deliverables + init).push(ds.last()) =~= st.deliverables + ds);
    }
}

// ---------------------------------------------------------------------------
// Cards
// ---------------------------------------------------------------------------

/// A card that reads back as itself: trimmed, one line, non-empty, without commas, and
/// neither starting nor ending with a quote.
pub open spec fn card_ok(c: Seq<char>) -> bool {
    &&& clean(c)
    &&& c.len() > 0
    &&& !c.contains(',')
    &&& c[0] != '"'
    &&& c[0] != '\''
    &&& c.last() != '"'
    &&& c.last() != '\''
}

/// A card in double quotes.
pub open spec fn quoted(c: Seq<char>) -> Seq<char> {
    seq!['"'] + c + seq!['"']
}

proof fn lemma_card_token_quoted(c: Seq<char>)
    requires
        card_ok(c),
    ensures
        card_token(quoted(c)) == c,
        card_token(seq![' '] + quoted(c)) == c,
{
    let q = quoted(c);
    lemma_trim_of_solid(q);
    lemma_trim_after_space(' ', q);
    assert(q.drop_first() =~= c + seq!['"']);
    assert(q.drop_first()[0] == c[0]);
    assert(leading_count(q.drop_first(), '"') == 0);
    assert(leading_count(q, '"') == 1);
    let a = q.skip(1);
    assert(a =~= c + seq!['"']);
    assert(a.drop_last() =~= c);
    assert(trim_end_char_of(c, '"') == c);
    assert(trim_end_char_of(a, '"') == c);
    assert(trim_matches_spec(q, '"') == c);
    assert(leading_count(c, '\'') == 0);
    assert(c.skip(0) =~= c);
    assert(trim_end_char_of(c, '\'') == c);
    assert(trim_matches_spec(c, '\'') == c);
}

proof fn lemma_quoted_cards_split(cards: Seq<Seq<char>>)
    requires
        cards.len() >= 1,
        forall|i: int| 0 <= i < cards.len() ==> card_ok(#[trigger] cards[i]),
    ensures
        split_on(quoted_cards(cards), ',').len() == cards.len(),
        forall|i: int|
            0 <= i < cards.len() ==> card_token(#[trigger] split_on(quoted_cards(cards), ',')[i])
                == cards[i],
    decreases cards.len(),
{
    reveal_strlit("\"");
    reveal_strlit(", ");
    let last = cards.last();
    assert(card_ok(cards[cards.len() - 1]));
    lemma_card_token_quoted(last);
    assert(!quoted(last).contains(',')) by {
        if quoted(last).contains(',') {
            let k = choose|k: int| 0 <= k < quoted(last).len() && quoted(last)[k] == ',';
            assert(last[k - 1] == ',');
        }
    }
    if cards.len() == 1 {
        assert(quoted_cards(cards) =~= quoted(last));
        lemma_split_extend(Seq::<char>::empty(), quoted(last), ',');
        assert(Seq::<char>::empty() + quoted(last) =~= quoted(last));
        let p = split_on(Seq::<char>::empty(), ',');
        assert(p =~= seq![Seq::<char>::empty()]);
        assert(p.last() + quoted(last) =~= quoted(last));
        assert(split_on(quoted(last), ',') =~= seq![quoted(last)]);
    } else {
        let init = cards.drop_last();
        assert forall|i: int| 0 <= i < init.len() implies card_ok(#[trigger] init[i]) by {
            assert(init[i] == cards[i]);
        }
        lemma_quoted_cards_split(init);
        let piece = seq![' '] + quoted(last);
        assert(!piece.contains(',')) by {
            if piece.contains(',') {
                let k = choose|k: int| 0 <= k < piece.len() && piece[k] == ',';
                assert(quoted(last)[k - 1] == ',');
            }
        }
        assert(quoted_cards(cards) =~= quoted_cards(init) + seq![','] + piece);
        lemma_split_sep_piece(quoted_cards(init), piece, ',');
        let sp = split_on(quoted_cards(cards), ',');
        assert forall|i: int| 0 <= i < cards.len() implies card_token(#[trigger] sp[i])
            == cards[i] by {
            if i < init.len() {
                assert(sp[i] == split_on(quoted_cards(init), ',')[i]);
                assert(cards[i] == init[i]);
            } else {
                assert(sp[i] == piece);
            }
        }
    }
}

proof fn lemma_non_empty_entries_all(s: Seq<Seq<char>>)
    requires
        forall|i: int| 0 <= i < s.len() ==> (#[trigger] s[i]).len() > 0,
    ensures
        non_empty_entries(s) == s,
    decreases s.len(),
{
    if s.len() > 0 {
        let init = s.drop_last();
        assert forall|i: int| 0 <= i < init.len() implies (#[trigger] init[i]).len() > 0 by {
            assert(init[i] == s[i]);
        }
        lemma_non_empty_entries_all(init);
        assert(s[s.len() - 1].len() > 0);
        assert(init.push(s.last()) =~= s);
    }
}

/// Rendered cards read back as the same cards.
proof fn lemma_cards_round_trip(cards: Seq<Seq<char>>)
    requires
        forall|i: int| 0 <= i < cards.len() ==> card_ok(#[trigger] cards[i]),
    ensures
        cards_of(quoted_cards(cards)) == cards,
        trim_spec(quoted_cards(cards)) == quoted_cards(cards),
{
    reveal_strlit("\"");
    reveal_strlit(", ");
    let q = quoted_cards(cards);
    if cards.len() == 0 {
        assert(q =~= Seq::<char>::empty());
        lemma_trim_of_solid(q);
        let sp = split_on(q, ',');
        assert(sp =~= seq![Seq::<char>::empty()]);
        let e = Seq::<char>::empty();
        lemma_trim_of_solid(e);
        assert(leading_count(e, '"') == 0);
        assert(e.skip(0) =~= e);
        assert(leading_count(e, '\'') == 0);
        assert(card_token(e) =~= e);
        let m = sp.map_values(|t: Seq<char>| card_token(t));
        assert(m =~= seq![e]);
        assert(m.drop_last() =~= Seq::<Seq<char>>::empty());
        assert(m.last().len() == 0);
        assert(non_empty_entries(m.drop_last()) =~= Seq::<Seq<char>>::empty());
        assert(non_empty_entries(m) =~= cards);
    } else {
        lemma_quoted_cards_split(cards);
        let sp = split_on(q, ',');
        let m = sp.map_values(|t: Seq<char>| card_token(t));
        assert(m =~= cards);
        assert forall|i: int| 0 <= i < cards.len() implies (#[trigger] cards[i]).len() > 0 by {
            assert(card_ok(cards[i]));
        }
        lemma_non_empty_entries_all(cards);
        lemma_quoted_ends(cards);
        lemma_trim_of_solid(q);
    }
}

proof fn lemma_quoted_ends(cards: Seq<Seq<char>>)
    requires
        cards.len() >= 1,
    ensures
        quoted_cards(cards).len() > 0,
        quoted_cards(cards)[0] == '"',
        quoted_cards(cards).last() == '"',
    decreases cards.len(),
{
    reveal_strlit("\"");
    reveal_strlit(", ");
    if cards.len() > 1 {
        lemma_quoted_ends(cards.drop_last());
    }
}

/// The digit run of digits followed by a non-digit is the digits.
proof fn lemma_digit_run_concat(s: Seq<char>, t: Seq<char>)
    requires
        forall|i: int| 0 <= i < s.len() ==> is_digit(#[trigger] s[i]),
        t.len() > 0,
        !unicode_decimal(t[0]),
    ensures
        digit_run(s + t) == s.len(),
    decreases s.len(),
{
    if s.len() == 0 {
        assert(s + t =~= t);
    } else {
        let d = s.drop_first();
        assert forall|i: int| 0 <= i < d.len() implies is_digit(#[trigger] d[i]) by {
            assert(d[i] == s[i + 1]);
        }
        lemma_digit_run_concat(d, t);
        assert((s + t).drop_first() =~= d + t);
        assert((s + t)[0] == s[0]);
        assert(is_digit(s[0]));
        assert(unicode_decimal(s[0]));
    }
}

// ---------------------------------------------------------------------------
// Headings
// ---------------------------------------------------------------------------

proof fn lemma_read_heading(item: ItemModel)
    requires
        trim_spec(item.title) == item.title,
        item.title.len() > 0,
    ensures
        heading_parts(heading_text(item)) == Some(
            (decimal_chars(item.id as nat), mark_of(item.status), seq![' '] + item.title),
        ),
{
    let d = decimal_chars(item.id as nat);
    let m = mark_of(item.status);
    let t = seq!['.', ' ', '[', m, ']', ' '] + item.title;
    let line = heading_text(item);
    assert(line =~= d + t);
    lemma_decimal_digits(item.id as nat);
    assert(t[0] == '.');
    lemma_digit_run_concat(d, t);
    let k = d.len() as int;
    assert(line[k] == '.');
    let after = line.skip(k + 1);
    assert(after =~= seq![' ', '[', m, ']', ' '] + item.title);
    assert(after.drop_first()[0] == '[');
    assert(leading_space(after.drop_first()) == 0);
    assert(leading_space(after) == 1);
    let rest = after.skip(4);
    assert(rest =~= seq![' '] + item.title);
    assert(line.take(k) =~= d);
}

// ---------------------------------------------------------------------------
// Items
// ---------------------------------------------------------------------------

/// An item that its rendering describes exactly: a valid item whose text fields are
/// trimmed single lines, whose cards read back whole, and whose optional texts, when
/// present, are not blank.
pub open spec fn faithful_item(item: ItemModel) -> bool {
    &&& item_problem(item) is None
    &&& clean(item.title)
    &&& clean(item.description)
    &&& forall|i: int| 0 <= i < item.cards.len() ==> card_ok(#[trigger] item.cards[i])
    &&& forall|i: int| 0 <= i < item.deliverables.len() ==> deliverable_ok(
        #[trigger] item.deliverables[i],
    )
    &&& match item.acceptance_criteria {
        Some(a) => deliverable_ok(a),
        None => true,
    }
    &&& match item.notes {
        Some(n) => deliverable_ok(n),
        None => true,
    }
}

proof fn lemma_no_newline_concat(a: Seq<char>, b: Seq<char>)
    requires
        one_line(a),
        one_line(b),
    ensures
        one_line(a + b),
{
    if (a + b).contains('\n') {
        let k = choose|k: int| 0 <= k < (a + b).len() && (a + b)[k] == '\n';
        if k < a.len() {
            assert(a[k] == '\n');
        } else {
            assert(b[k - a.len()] == '\n');
        }
    }
}

proof fn lemma_literal_one_line(s: Seq<char>)
    requires
        forall|i: int| 0 <= i < s.len() ==> s[i] != '\n',
    ensures
        one_line(s),
{
}

proof fn lemma_quoted_one_line(cards: Seq<Seq<char>>)
    requires
        forall|i: int| 0 <= i < cards.len() ==> card_ok(#[trigger] cards[i]),
    ensures
        one_line(quoted_cards(cards)),
    decreases cards.len(),
{
    reveal_strlit("\"");
    reveal_strlit(", ");
    if cards.len() > 0 {
        let init = cards.drop_last();
        assert forall|i: int| 0 <= i < init.len() implies card_ok(#[trigger] init[i]) by {
            assert(init[i] == cards[i]);
        }
        lemma_quoted_one_line(init);
        assert(card_ok(cards[cards.len() - 1]));
        let q = quoted(cards.last());
        lemma_literal_one_line(seq!['"']);
        lemma_no_newline_concat(seq!['"'], cards.last());
        lemma_no_newline_concat(seq!['"'] + cards.last(), seq!['"']);
        if cards.len() == 1 {
            assert(quoted_cards(cards) =~= q);
        } else {
            lemma_literal_one_line(seq![',', ' ']);
            lemma_no_newline_concat(quoted_cards(init), seq![',', ' ']);
            lemma_no_newline_concat(quoted_cards(init) + seq![',', ' '], q);
            assert(quoted_cards(cards) =~= quoted_cards(init) + seq![',', ' '] + q);
        }
    }
}

proof fn lemma_field_plain(k: Seq<char>, v: Seq<char>)
    requires
        key_ok(k),
        clean(v),
    ensures
        plain_line(field_text(k, v)),
{
    let line = field_text(k, v);
    lemma_literal_one_line(seq![' ', ' ', ' ', ' ', '-', ' ']);
    lemma_literal_one_line(seq![':', ' ']);
    lemma_no_newline_concat(seq![' ', ' ', ' ', ' ', '-', ' '], k);
    lemma_no_newline_concat(seq![' ', ' ', ' ', ' ', '-', ' '] + k, seq![':', ' ']);
    lemma_no_newline_concat(seq![' ', ' ', ' ', ' ', '-', ' '] + k + seq![':', ' '], v);
    if v.len() > 0 {
        lemma_trimmed_ends(v);
        assert(line.last() == v.last());
    } else {
        assert(line.last() == ' ');
    }
}

/// The lines of a faithful item are lines that read back whole.
proof fn lemma_item_lines_plain(item: ItemModel)
    requires
        faithful_item(item),
    ensures
        forall|i: int| 0 <= i < item_lines(item).len() ==> plain_line(#[trigger] item_lines(item)[i]),
{
    reveal_strlit("Deliverables:");
    lemma_key_literals();
    let ls = item_lines(item);
    // The heading.
    let h = heading_text(item);
    let d = decimal_chars(item.id as nat);
    lemma_decimal_digits(item.id as nat);
    assert(one_line(d)) by {
        assert forall|i: int| 0 <= i < d.len() implies d[i] != '\n' by {
            assert(is_digit(d[i]));
        }
    }
    let mid = seq!['.', ' ', '[', mark_of(item.status), ']', ' '];
    lemma_literal_one_line(mid);
    lemma_no_newline_concat(d, mid);
    lemma_no_newline_concat(d + mid, trim_spec(item.title));
    lemma_trimmed_ends(item.title);
    assert(h.last() == item.title.last());
    // The fields.
    let p = decimal_chars(item.priority as nat);
    lemma_decimal_digits(item.priority as nat);
    lemma_digits_solid(item.priority as nat);
    assert(one_line(p)) by {
        assert forall|i: int| 0 <= i < p.len() implies p[i] != '\n' by {
            assert(is_digit(p[i]));
        }
    }
    lemma_field_plain("Priority"@, p);
    lemma_quoted_one_line(item.cards);
    lemma_cards_round_trip(item.cards);
    lemma_field_plain("Cards"@, quoted_cards(item.cards));
    lemma_field_plain("Description"@, item.description);
    let dh = field_prefix_text() + "Deliverables:"@;
    lemma_literal_one_line(dh);
    lemma_status_words(item.status);
    let st = status_text(item.status);
    reveal_strlit("planned");
    reveal_strlit("in-progress");
    reveal_strlit("completed");
    reveal_strlit("cancelled");
    lemma_literal_one_line(st);
    lemma_field_plain("Status"@, st);
    let dl = item.deliverables.map_values(|x: Seq<char>| deliverable_text(x));
    assert forall|i: int| 0 <= i < dl.len() implies plain_line(#[trigger] dl[i]) by {
        let x = item.deliverables[i];
        assert(deliverable_ok(x));
        lemma_trimmed_ends(x);
        let pre = seq![' ', ' ', ' ', ' ', ' ', ' ', ' ', ' ', '-', ' '];
        lemma_literal_one_line(pre);
        lemma_no_newline_concat(pre, x);
        assert(dl[i] == pre + x);
        assert(dl[i].last() == x.last());
    }
    let acc = optional_field("Acceptance Criteria"@, item.acceptance_criteria);
    let notes = optional_field("Notes"@, item.notes);
    match item.acceptance_criteria {
        Some(a) => {
            lemma_field_plain("Acceptance Criteria"@, a);
        },
        None => {},
    }
    match item.notes {
        Some(n) => {
            lemma_field_plain("Notes"@, n);
        },
        None => {},
    }
    let head = seq![
        h,
        field_text("Priority"@, p),
        field_text("Cards"@, quoted_cards(item.cards)),
        field_text("Description"@, item.description),
        dh,
    ];
    let tail = seq![field_text("Status"@, st)];
    assert(ls =~= head + dl + acc + notes + tail);
    assert forall|i: int| 0 <= i < ls.len() implies plain_line(#[trigger] ls[i]) by {
        if i < 5 {
            assert(ls[i] == head[i]);
        } else if i < 5 + dl.len() {
            assert(ls[i] == dl[i - 5]);
        } else if i < 5 + dl.len() + acc.len() {
            assert(ls[i] == acc[i - 5 - dl.len()]);
        } else if i < 5 + dl.len() + acc.len() + notes.len() {
            assert(ls[i] == notes[i - 5 - dl.len() - acc.len()]);
        } else {
            assert(ls[i] == tail[0]);
        }
    }
}

proof fn lemma_fold_cons(id: u64, st: FieldsModel, l: Seq<char>, rest: Seq<Seq<char>>)
    ensures
        fold_fields(id, st, seq![l] + rest) == match field_step(id, st, l) {
            Err(e) => Err(e),
            Ok(next) => fold_fields(id, next, rest),
        },
{
    assert((seq![l] + rest)[0] == l);
    assert((seq![l] + rest).drop_first() =~= rest);
}

proof fn lemma_fold_optional(
    id: u64,
    st: FieldsModel,
    key: Seq<char>,
    value: Option<Seq<char>>,
    rest: Seq<Seq<char>>,
)
    ensures
        fold_fields(id, st, optional_field(key, value) + rest) == match value {
            Some(v) => match field_step(id, st, field_text(key, trim_spec(v))) {
                Err(e) => Err(e),
                Ok(next) => fold_fields(id, next, rest),
            },
            None => fold_fields(id, st, rest),
        },
{
    match value {
        Some(v) => {
            lemma_fold_cons(id, st, field_text(key, trim_spec(v)), rest);
        },
        None => {
            assert(optional_field(key, value) + rest =~= rest);
        },
    }
}

/// The fields a faithful item's body reads as.
pub open spec fn fields_of(item: ItemModel) -> FieldsModel {
    FieldsModel {
        priority: Some(item.priority),
        cards: Some(item.cards),
        description: Some(item.description),
        deliverables: item.deliverables,
        acceptance_criteria: item.acceptance_criteria,
        notes: item.notes,
        status: Some(item.status),
        in_deliverables: false,
    }
}

#[verifier::rlimit(40)]
proof fn lemma_read_body(item: ItemModel)
    requires
        faithful_item(item),
    ensures
        fold_fields(item.id, no_fields(), item_lines(item).drop_first()) == Ok::<
            FieldsModel,
            ParseErrorModel,
        >(fields_of(item)),
{
    let id = item.id;
    let p = decimal_chars(item.priority as nat);
    let fp = field_text("Priority"@, p);
    let fc = field_text("Cards"@, quoted_cards(item.cards));
    lemma_trimmed_ends(item.description);
    let fd = field_text("Description"@, trim_spec(item.description));
    let dh = field_prefix_text() + "Deliverables:"@;
    let dl = item.deliverables.map_values(|d: Seq<char>| deliverable_text(d));
    let acc = optional_field("Acceptance Criteria"@, item.acceptance_criteria);
    let notes = optional_field("Notes"@, item.notes);
    let fs = field_text("Status"@, status_text(item.status));
    let r4 = dl + (acc + (notes + seq![fs]));
    assert(item_lines(item).drop_first() =~= seq![fp] + (seq![fc] + (seq![fd] + (seq![dh] + r4))));

    let s0 = no_fields();
    let s1 = FieldsModel { priority: Some(item.priority), in_deliverables: false, ..s0 };
    lemma_read_priority(id, s0, item.priority);
    lemma_fold_cons(id, s0, fp, seq![fc] + (seq![fd] + (seq![dh] + r4)));
    let s2 = FieldsModel { cards: Some(item.cards), in_deliverables: false, ..s1 };
    lemma_cards_round_trip(item.cards);
    lemma_read_cards(id, s1, item.cards);
    lemma_fold_cons(id, s1, fc, seq![fd] + (seq![dh] + r4));
    let s3 = FieldsModel { description: Some(item.description), in_deliverables: false, ..s2 };
    lemma_read_description(id, s2, item.description);
    lemma_fold_cons(id, s2, fd, seq![dh] + r4);
    let s4 = FieldsModel { in_deliverables: true, ..s3 };
    lemma_read_deliverables_header(id, s3);
    lemma_fold_cons(id, s3, dh, r4);
    let s5 = FieldsModel { deliverables: s4.deliverables + item.deliverables, ..s4 };
    lemma_read_deliverables(id, s4, item.deliverables);
    lemma_fold_append(id, s4, dl, acc + (notes + seq![fs]));
    assert(s4.deliverables + item.deliverables =~= item.deliverables);
    let s6 = match item.acceptance_criteria {
        Some(a) => FieldsModel { acceptance_criteria: Some(a), in_deliverables: false, ..s5 },
        None => s5,
    };
    lemma_fold_optional(id, s5, "Acceptance Criteria"@, item.acceptance_criteria, notes + seq![fs]);
    match item.acceptance_criteria {
        Some(a) => {
            lemma_trimmed_ends(a);
            lemma_read_acceptance(id, s5, a);
        },
        None => {},
    }
    let s7 = match item.notes {
        Some(n) => FieldsModel { notes: Some(n), in_deliverables: false, ..s6 },
        None => s6,
    };
    lemma_fold_optional(id, s6, "Notes"@, item.notes, seq![fs]);
    match item.notes {
        Some(n) => {
            lemma_trimmed_ends(n);
            lemma_read_notes(id, s6, n);
        },
        None => {},
    }
    lemma_read_status(id, s7, item.status);
    lemma_fold_one(id, s7, fs);
    let s8 = FieldsModel { status: Some(item.status), in_deliverables: false, ..s7 };
    assert(s8 == fields_of(item));
}

proof fn lemma_parse_item_lines(item: ItemModel)
    requires
        faithful_item(item),
    ensures
        parse_item_spec(item_lines(item)) == Ok::<ItemModel, ParseErrorModel>(item),
        parse_item_spec(item_lines(item) + seq![Seq::<char>::empty()]) == Ok::<
            ItemModel,
            ParseErrorModel,
        >(item),
{
    let block = item_lines(item);
    lemma_trimmed_ends(item.title);
    lemma_read_heading(item);
    lemma_parse_decimal(item.id as nat, u64::MAX as int);
    lemma_read_body(item);
    lemma_trim_after_space(' ', item.title);
    assert(block[0] == heading_text(item));
    let e = Seq::<char>::empty();
    let longer = block + seq![e];
    assert(longer[0] == heading_text(item));
    assert(longer.drop_first() =~= block.drop_first() + seq![e]);
    lemma_fold_append(item.id, no_fields(), block.drop_first(), seq![e]);
    lemma_fold_one(item.id, fields_of(item), e);
    lemma_trim_of_solid(e);
}

/// A faithful item, rendered and read back, is the same item.
pub proof fn lemma_item_round_trip(item: ItemModel)
    requires
        faithful_item(item),
    ensures
        parse_item_spec(lines_of(rendered_item(item))) == Ok::<ItemModel, ParseErrorModel>(item),
{
    lemma_rendered_item_lines(item);
    lemma_item_lines_plain(item);
    lemma_lines_of_joined(item_lines(item));
    lemma_parse_item_lines(item);
}

// ---------------------------------------------------------------------------
// Ordering by id
// ---------------------------------------------------------------------------

/// Items in non-decreasing id order.
pub open spec fn sorted_by_id(s: Seq<ItemModel>) -> bool {
    forall|i: int, j: int| 0 <= i < j < s.len() ==> (#[trigger] s[i]).id <= (#[trigger] s[j]).id
}

/// No two items share an id.
pub open spec fn distinct_ids(s: Seq<ItemModel>) -> bool {
    forall|i: int, j: int| 0 <= i < j < s.len() ==> (#[trigger] s[i]).id != (#[trigger] s[j]).id
}

proof fn lemma_insert_position(sorted: Seq<ItemModel>, id: u64)
    requires
        sorted_by_id(sorted),
    ensures
        0 <= insert_position(sorted, id) <= sorted.len(),
        forall|i: int| 0 <= i < insert_position(sorted, id) ==> (#[trigger] sorted[i]).id <= id,
        forall|i: int| insert_position(sorted, id) <= i < sorted.len() ==> (#[trigger] sorted[i]).id > id,
    decreases sorted.len(),
{
    if sorted.len() > 0 {
        let init = sorted.drop_last();
        assert(sorted_by_id(init)) by {
            assert forall|i: int, j: int| 0 <= i < j < init.len() implies (#[trigger] init[i]).id
                <= (#[trigger] init[j]).id by {
                assert(init[i] == sorted[i] && init[j] == sorted[j]);
            }
        }
        lemma_insert_position(init, id);
        if sorted.last().id <= id {
            assert forall|i: int| 0 <= i < sorted.len() implies (#[trigger] sorted[i]).id <= id by {
                if i < sorted.len() - 1 {
                    assert(sorted[i].id <= sorted[sorted.len() - 1].id);
                }
            }
        } else {
            assert forall|i: int| 0 <= i < insert_position(sorted, id) implies (
            #[trigger] sorted[i]).id <= id by {
                assert(sorted[i] == init[i]);
            }
            assert forall|i: int| insert_position(sorted, id) <= i < sorted.len() implies (
            #[trigger] sorted[i]).id > id by {
                if i < sorted.len() - 1 {
                    assert(sorted[i] == init[i]);
                }
            }
        }
    }
}

/// Sorting by id gives the same items, in id order.
pub proof fn lemma_sort_by_id(items: Seq<ItemModel>)
    ensures
        sort_by_id(items).len() == items.len(),
        sorted_by_id(sort_by_id(items)),
        forall|i: int| 0 <= i < items.len() ==> items.contains(#[trigger] sort_by_id(items)[i]),
        distinct_ids(items) ==> distinct_ids(sort_by_id(items)),
    decreases items.len(),
{
    if items.len() > 0 {
        let init = items.drop_last();
        let x = items.last();
        lemma_sort_by_id(init);
        let rest = sort_by_id(init);
        lemma_insert_position(rest, x.id);
        let k = insert_position(rest, x.id);
        let r = rest.insert(k, x);
        assert(sort_by_id(items) == r);
        assert forall|i: int, j: int| 0 <= i < j < r.len() implies (#[trigger] r[i]).id <= (
        #[trigger] r[j]).id by {
            if j < k {
                assert(r[i] == rest[i] && r[j] == rest[j]);
            } else if j == k {
                assert(r[j] == x);
                assert(r[i] == rest[i]);
            } else if i < k {
                assert(r[i] == rest[i] && r[j] == rest[j - 1]);
            } else if i == k {
                assert(r[i] == x && r[j] == rest[j - 1]);
            } else {
                assert(r[i] == rest[i - 1] && r[j] == rest[j - 1]);
            }
        }
        assert forall|i: int| 0 <= i < items.len() implies items.contains(#[trigger] r[i]) by {
            if i == k {
                assert(r[i] == items[items.len() - 1]);
            } else {
                let q = if i < k {
                    i
                } else {
                    i - 1
                };
                assert(r[i] == rest[q]);
                assert(init.contains(rest[q]));
                let w = choose|w: int| 0 <= w < init.len() && init[w] == rest[q];
                assert(items[w] == init[w]);
            }
        }
        if distinct_ids(items) {
            assert(distinct_ids(init)) by {
                assert forall|i: int, j: int| 0 <= i < j < init.len() implies (#[trigger] init[i]).id
                    != (#[trigger] init[j]).id by {
                    assert(init[i] == items[i] && init[j] == items[j]);
                }
            }
            assert forall|q: int| 0 <= q < rest.len() implies (#[trigger] rest[q]).id != x.id by {
                assert(init.contains(rest[q]));
                let w = choose|w: int| 0 <= w < init.len() && init[w] == rest[q];
                assert(items[w] == init[w]);
                assert(items[w].id != items[items.len() - 1].id);
            }
            assert forall|i: int, j: int| 0 <= i < j < r.len() implies (#[trigger] r[i]).id != (
            #[trigger] r[j]).id by {
                if j < k {
                    assert(r[i] == rest[i] && r[j] == rest[j]);
                } else if j == k {
                    assert(r[j] == x && r[i] == rest[i]);
                } else if i < k {
                    assert(r[i] == rest[i] && r[j] == rest[j - 1]);
                } else if i == k {
                    assert(r[i] == x && r[j] == rest[j - 1]);
                } else {
                    assert(r[i] == rest[i - 1] && r[j] == rest[j - 1]);
                }
            }
        }
    }
}

/// Sorting items already in id order leaves them as they are.
pub proof fn lemma_sort_sorted(items: Seq<ItemModel>)
    requires
        sorted_by_id(items),
    ensures
        sort_by_id(items) == items,
    decreases items.len(),
{
    if items.len() > 0 {
        let init = items.drop_last();
        assert(sorted_by_id(init)) by {
            assert forall|i: int, j: int| 0 <= i < j < init.len() implies (#[trigger] init[i]).id
                <= (#[trigger] init[j]).id by {
                assert(init[i] == items[i] && init[j] == items[j]);
            }
        }
        lemma_sort_sorted(init);
        if init.len() > 0 {
            assert(init.last().id <= items.last().id) by {
                assert(init.last() == items[items.len() - 2]);
            }
        }
        assert(insert_position(init, items.last().id) == init.len());
        assert(init.insert(init.len() as int, items.last()) =~= items);
    }
}

/// Items in strictly increasing id order have no duplicate.
pub proof fn lemma_no_duplicate(items: Seq<ItemModel>)
    requires
        sorted_by_id(items),
        distinct_ids(items),
    ensures
        first_duplicate(items) is None,
    decreases items.len(),
{
    if items.len() >= 2 {
        let rest = items.drop_first();
        assert(sorted_by_id(rest) && distinct_ids(rest)) by {
            assert forall|i: int, j: int| 0 <= i < j < rest.len() implies (#[trigger] rest[i]).id
                <= (#[trigger] rest[j]).id && rest[i].id != rest[j].id by {
                assert(rest[i] == items[i + 1] && rest[j] == items[j + 1]);
            }
        }
        lemma_no_duplicate(rest);
        assert(items[0].id != items[1].id);
    }
}

// ---------------------------------------------------------------------------
// Item blocks in a document
// ---------------------------------------------------------------------------

/// Heading positions of two runs of lines.
proof fn lemma_heading_indices_append(a: Seq<Seq<char>>, b: Seq<Seq<char>>)
    ensures
        heading_indices(a + b) == heading_indices(a) + heading_indices(b).map_values(
            |i: int| i + a.len(),
        ),
    decreases b.len(),
{
    if b.len() == 0 {
        assert(a + b =~= a);
        assert(heading_indices(b).map_values(|i: int| i + a.len()) =~= Seq::<int>::empty());
        assert(heading_indices(a) + Seq::<int>::empty() =~= heading_indices(a));
    } else {
        lemma_heading_indices_append(a, b.drop_last());
        assert((a + b).drop_last() =~= a + b.drop_last());
        assert((a + b).last() == b.last());
        let hb = heading_indices(b.drop_last());
        if heading_parts(b.last()) is Some {
            assert(heading_indices(b) == hb.push(b.len() - 1));
            assert(hb.push(b.len() - 1).map_values(|i: int| i + a.len()) =~= hb.map_values(
                |i: int| i + a.len(),
            ).push(b.len() - 1 + a.len()));
            assert(heading_indices(a + b) =~= heading_indices(a) + heading_indices(b).map_values(
                |i: int| i + a.len(),
            ));
        } else {
            assert(heading_indices(b) == hb);
        }
    }
}

/// A line that starts with whitespace, or an empty line, is no heading.
proof fn lemma_not_heading(l: Seq<char>)
    requires
        l.len() == 0 || l[0] == ' ',
    ensures
        heading_parts(l) is None,
{
}

proof fn lemma_no_headings(ls: Seq<Seq<char>>)
    requires
        forall|i: int| 0 <= i < ls.len() ==> heading_parts(#[trigger] ls[i]) is None,
    ensures
        heading_indices(ls) == Seq::<int>::empty(),
    decreases ls.len(),
{
    if ls.len() > 0 {
        let init = ls.drop_last();
        assert forall|i: int| 0 <= i < init.len() implies heading_parts(#[trigger] init[i]) is None by {
            assert(init[i] == ls[i]);
        }
        lemma_no_headings(init);
        assert(heading_parts(ls[ls.len() - 1]) is None);
    }
}

proof fn lemma_item_headings(item: ItemModel)
    requires
        faithful_item(item),
    ensures
        heading_indices(item_lines(item)) == seq![0int],
{
    let ls = item_lines(item);
    lemma_trimmed_ends(item.title);
    lemma_read_heading(item);
    let rest = ls.drop_first();
    assert forall|i: int| 0 <= i < rest.len() implies heading_parts(#[trigger] rest[i]) is None by {
        assert(rest[i] == ls[i + 1]);
        assert(rest[i][0] == ' ');
        lemma_not_heading(rest[i]);
    }
    lemma_no_headings(rest);
    let h = seq![ls[0]];
    assert(h.drop_last() =~= Seq::<Seq<char>>::empty());
    assert(h.last() == heading_text(item));
    assert(heading_indices(h.drop_last()) =~= Seq::<int>::empty());
    assert(heading_indices(h) =~= seq![0int]);
    lemma_heading_indices_append(h, rest);
    assert(h + rest =~= ls);
    assert(seq![0int] + Seq::<int>::empty().map_values(|i: int| i + h.len()) =~= seq![0int]);
}

/// The lines of items separated by blank lines.
pub open spec fn chunks_from(items: Seq<ItemModel>) -> Seq<Seq<char>>
    decreases items.len(),
{
    if items.len() == 0 {
        Seq::empty()
    } else if items.len() == 1 {
        item_lines(items[0])
    } else {
        item_lines(items[0]) + seq![Seq::<char>::empty()] + chunks_from(items.drop_first())
    }
}

/// The block of the `p`-th item: its lines, and the blank line after it but for the last.
pub open spec fn chunk(items: Seq<ItemModel>, p: int) -> Seq<Seq<char>> {
    if p + 1 < items.len() {
        item_lines(items[p]) + seq![Seq::<char>::empty()]
    } else {
        item_lines(items[p])
    }
}

/// Every item of a list is faithful.
pub open spec fn all_faithful(items: Seq<ItemModel>) -> bool {
    forall|i: int| 0 <= i < items.len() ==> faithful_item(#[trigger] items[i])
}

proof fn lemma_chunks(items: Seq<ItemModel>)
    requires
        items.len() >= 1,
        all_faithful(items),
    ensures
        heading_indices(chunks_from(items)).len() == items.len(),
        heading_indices(chunks_from(items))[0] == 0,
        forall|p: int|
            0 <= p < items.len() ==> #[trigger] item_block(
                chunks_from(items),
                heading_indices(chunks_from(items)),
                p,
            ) == chunk(items, p),
    decreases items.len(),
{
    let c = chunks_from(items);
    let h = heading_indices(c);
    assert(faithful_item(items[0]));
    lemma_item_headings(items[0]);
    if items.len() == 1 {
        assert(c.subrange(0, c.len() as int) =~= c);
    } else {
        let rest = items.drop_first();
        assert(all_faithful(rest)) by {
            assert forall|i: int| 0 <= i < rest.len() implies faithful_item(#[trigger] rest[i]) by {
                assert(rest[i] == items[i + 1]);
            }
        }
        lemma_chunks(rest);
        let e = Seq::<char>::empty();
        let a = item_lines(items[0]) + seq![e];
        let c2 = chunks_from(rest);
        let h2 = heading_indices(c2);
        assert(c == a + c2);
        lemma_not_heading(e);
        assert(seq![e].drop_last() =~= Seq::<Seq<char>>::empty());
        assert(seq![e].last() == e);
        assert(heading_indices(seq![e].drop_last()) =~= Seq::<int>::empty());
        assert(heading_indices(seq![e]) =~= Seq::<int>::empty());
        lemma_heading_indices_append(item_lines(items[0]), seq![e]);
        assert(heading_indices(a) =~= seq![0int]);
        lemma_heading_indices_append(a, c2);
        let d = a.len() as int;
        assert(h =~= seq![0int] + h2.map_values(|i: int| i + d));
        lemma_heading_indices(c2);
        lemma_heading_indices(c);
        assert forall|p: int| 0 <= p < items.len() implies #[trigger] item_block(c, h, p) == chunk(
            items,
            p,
        ) by {
            if p == 0 {
                assert(h[1] == h2[0] + d);
                assert(c.subrange(0, d) =~= a);
            } else {
                assert(h[p] == h2[p - 1] + d);
                assert(item_block(c2, h2, p - 1) == chunk(rest, p - 1));
                assert(rest[p - 1] == items[p]);
                if p + 1 < items.len() {
                    assert(h[p + 1] == h2[p] + d);
                    assert(c.subrange(h[p], h[p + 1]) =~= c2.subrange(h2[p - 1], h2[p]));
                } else {
                    assert(c.subrange(h[p], c.len() as int) =~= c2.subrange(
                        h2[p - 1],
                        c2.len() as int,
                    ));
                }
            }
        }
    }
}

proof fn lemma_blocks_after(pre: Seq<Seq<char>>, items: Seq<ItemModel>)
    requires
        items.len() >= 1,
        all_faithful(items),
        heading_indices(pre) == Seq::<int>::empty(),
    ensures
        heading_indices(pre + chunks_from(items)).len() == items.len(),
        heading_indices(pre + chunks_from(items))[0] == pre.len(),
        forall|p: int|
            0 <= p < items.len() ==> #[trigger] item_block(
                pre + chunks_from(items),
                heading_indices(pre + chunks_from(items)),
                p,
            ) == chunk(items, p),
{
    let c = chunks_from(items);
    lemma_chunks(items);
    lemma_heading_indices_append(pre, c);
    let h = heading_indices(c);
    let lines = pre + c;
    let starts = heading_indices(lines);
    let o = pre.len() as int;
    assert(starts =~= h.map_values(|i: int| i + o));
    lemma_heading_indices(c);
    assert forall|p: int| 0 <= p < items.len() implies #[trigger] item_block(lines, starts, p)
        == chunk(items, p) by {
        assert(item_block(c, h, p) == chunk(items, p));
        if p + 1 < items.len() {
            assert(lines.subrange(h[p] + o, h[p + 1] + o) =~= c.subrange(h[p], h[p + 1]));
        } else {
            assert(lines.subrange(h[p] + o, lines.len() as int) =~= c.subrange(h[p], c.len() as int));
        }
    }
}

proof fn lemma_parse_blocks(lines: Seq<Seq<char>>, starts: Seq<int>, items: Seq<ItemModel>, p: int)
    requires
        starts.len() == items.len(),
        0 <= p <= items.len(),
        forall|q: int|
            p <= q < items.len() ==> parse_item_spec(#[trigger] item_block(lines, starts, q))
                == Ok::<ItemModel, ParseErrorModel>(items[q]),
    ensures
        parse_blocks(lines, starts, p) == Ok::<Seq<ItemModel>, ParseErrorModel>(items.skip(p)),
    decreases items.len() - p,
{
    if p == items.len() {
        assert(items.skip(p) =~= Seq::<ItemModel>::empty());
    } else {
        assert(parse_item_spec(item_block(lines, starts, p)) == Ok::<ItemModel, ParseErrorModel>(
            items[p],
        ));
        lemma_parse_blocks(lines, starts, items, p + 1);
        assert(seq![items[p]] + items.skip(p + 1) =~= items.skip(p));
    }
}

proof fn lemma_parse_chunks(pre: Seq<Seq<char>>, items: Seq<ItemModel>)
    requires
        items.len() >= 1,
        all_faithful(items),
        heading_indices(pre) == Seq::<int>::empty(),
    ensures
        parse_blocks(pre + chunks_from(items), heading_indices(pre + chunks_from(items)), 0)
            == Ok::<Seq<ItemModel>, ParseErrorModel>(items),
{
    let lines = pre + chunks_from(items);
    let starts = heading_indices(lines);
    lemma_blocks_after(pre, items);
    assert forall|q: int| 0 <= q < items.len() implies parse_item_spec(
        #[trigger] item_block(lines, starts, q),
    ) == Ok::<ItemModel, ParseErrorModel>(items[q]) by {
        assert(item_block(lines, starts, q) == chunk(items, q));
        assert(faithful_item(items[q]));
        lemma_parse_item_lines(items[q]);
    }
    lemma_parse_blocks(lines, starts, items, 0);
    assert(items.skip(0) =~= items);
}

// ---------------------------------------------------------------------------
// Documents
// ---------------------------------------------------------------------------

proof fn lemma_join_first(x: Seq<char>, rest: Seq<Seq<char>>, sep: Seq<char>)
    requires
        rest.len() >= 1,
    ensures
        join_with(seq![x] + rest, sep) == x + sep + join_with(rest, sep),
    decreases rest.len(),
{
    let all = seq![x] + rest;
    assert(all.drop_last() =~= seq![x] + rest.drop_last());
    assert(all.last() == rest.last());
    if rest.len() == 1 {
        assert(rest.drop_last() =~= Seq::<Seq<char>>::empty());
        assert(seq![x] + rest.drop_last() =~= seq![x]);
        assert(join_with(rest, sep) == rest[0]);
        assert(seq![x].len() == 1 && seq![x][0] == x);
        assert(join_with(seq![x], sep) == x);
        assert(all.last() == rest[0]);
        assert(join_with(all, sep) == join_with(all.drop_last(), sep) + sep + all.last());
        assert(join_with(all, sep) =~= x + sep + join_with(rest, sep));
    } else {
        lemma_join_first(x, rest.drop_last(), sep);
        assert(join_with(all, sep) =~= x + sep + join_with(rest, sep));
    }
}

proof fn lemma_joined_blank()
    ensures
        joined_lines(seq![Seq::<char>::empty()]) == seq!['\n'],
{
    lemma_joined_one(Seq::<char>::empty());
    assert(Seq::<char>::empty() + seq!['\n'] =~= seq!['\n']);
}

/// Rendered items joined by blank lines are the lines of their blocks.
proof fn lemma_join_rendered(items: Seq<ItemModel>, rs: Seq<Seq<char>>)
    requires
        items.len() >= 1,
        rs.len() == items.len(),
        forall|i: int| 0 <= i < items.len() ==> #[trigger] rs[i] == rendered_item(items[i]),
    ensures
        join_with(rs, seq!['\n']) == joined_lines(chunks_from(items)),
    decreases items.len(),
{
    assert(rs[0] == rendered_item(items[0]));
    lemma_rendered_item_lines(items[0]);
    if items.len() == 1 {
        assert(join_with(rs, seq!['\n']) == rs[0]);
    } else {
        let rest = items.drop_first();
        let rr = rs.drop_first();
        assert forall|i: int| 0 <= i < rest.len() implies #[trigger] rr[i] == rendered_item(rest[i]) by {
            assert(rr[i] == rs[i + 1]);
            assert(rest[i] == items[i + 1]);
        }
        lemma_join_rendered(rest, rr);
        assert(rs =~= seq![rs[0]] + rr);
        lemma_join_first(rs[0], rr, seq!['\n']);
        let l0 = item_lines(items[0]);
        let e = seq![Seq::<char>::empty()];
        lemma_joined_append(l0 + e, chunks_from(rest));
        lemma_joined_append(l0, e);
        lemma_joined_blank();
    }
}

/// Pieces of a split hold no separator, and only characters of the text.
proof fn lemma_split_pieces(s: Seq<char>, c: char)
    ensures
        forall|i: int| 0 <= i < split_on(s, c).len() ==> !(#[trigger] split_on(s, c)[i]).contains(c),
        forall|i: int, x: char|
            0 <= i < split_on(s, c).len() && #[trigger] split_on(s, c)[i].contains(x)
                ==> s.contains(x),
    decreases s.len(),
{
    lemma_split_on_nonempty(s, c);
    if s.len() > 0 {
        let s2 = s.drop_last();
        lemma_split_pieces(s2, c);
        lemma_split_on_nonempty(s2, c);
        let r = split_on(s2, c);
        let sp = split_on(s, c);
        assert forall|x: char| s2.contains(x) implies s.contains(x) by {
            let k = choose|k: int| 0 <= k < s2.len() && s2[k] == x;
            assert(s[k] == x);
        }
        assert(s[s.len() - 1] == s.last());
        if s.last() == c {
            assert forall|i: int| 0 <= i < sp.len() implies !(#[trigger] sp[i]).contains(c) by {
                if i < r.len() {
                    assert(sp[i] == r[i]);
                }
            }
            assert forall|i: int, x: char| 0 <= i < sp.len() && #[trigger] sp[i].contains(x)
                implies s.contains(x) by {
                if i < r.len() {
                    assert(sp[i] == r[i]);
                }
            }
        } else {
            let l = r.last().push(s.last());
            assert forall|i: int| 0 <= i < sp.len() implies !(#[trigger] sp[i]).contains(c) by {
                if i < r.len() - 1 {
                    assert(sp[i] == r[i]);
                } else {
                    assert(sp[i] == l);
                    assert(!r[r.len() - 1].contains(c));
                    if l.contains(c) {
                        let k = choose|k: int| 0 <= k < l.len() && l[k] == c;
                        if k < l.len() - 1 {
                            assert(r.last()[k] == c);
                        }
                    }
                }
            }
            assert forall|i: int, x: char| 0 <= i < sp.len() && #[trigger] sp[i].contains(x)
                implies s.contains(x) by {
                if i < r.len() - 1 {
                    assert(sp[i] == r[i]);
                } else {
                    assert(sp[i] == l);
                    let k = choose|k: int| 0 <= k < l.len() && l[k] == x;
                    if k < l.len() - 1 {
                        assert(r.last()[k] == x);
                        assert(r[r.len() - 1].contains(x));
                    }
                }
            }
        }
    }
}

/// The pieces of a text, each followed by a newline, are the text and a newline.
proof fn lemma_joined_split(s: Seq<char>)
    ensures
        joined_lines(split_on(s, '\n')) == s + seq!['\n'],
    decreases s.len(),
{
    lemma_split_on_nonempty(s, '\n');
    if s.len() == 0 {
        let sp = split_on(s, '\n');
        assert(sp =~= seq![Seq::<char>::empty()]);
        lemma_joined_blank();
        assert(s + seq!['\n'] =~= seq!['\n']);
    } else {
        let s2 = s.drop_last();
        lemma_joined_split(s2);
        lemma_split_on_nonempty(s2, '\n');
        let r = split_on(s2, '\n');
        if s.last() == '\n' {
            let e = Seq::<char>::empty();
            assert(split_on(s, '\n') == r.push(e));
            assert(r.push(e).drop_last() =~= r);
            assert(joined_lines(r.push(e)) =~= s2 + seq!['\n'] + e + seq!['\n']);
            assert(s =~= s2 + seq!['\n']);
        } else {
            let l = r.last().push(s.last());
            let u = r.update(r.len() - 1, l);
            assert(split_on(s, '\n') == u);
            assert(u.drop_last() =~= r.drop_last());
            assert(joined_lines(r) == joined_lines(r.drop_last()) + r.last() + seq!['\n']);
            assert(joined_lines(u) == joined_lines(r.drop_last()) + l + seq!['\n']);
            assert(joined_lines(r.drop_last()) + r.last() =~= s2) by {
                assert(joined_lines(r.drop_last()) + r.last() + seq!['\n'] == s2 + seq!['\n']);
                assert((joined_lines(r.drop_last()) + r.last() + seq!['\n']).drop_last()
                    =~= joined_lines(r.drop_last()) + r.last());
                assert((s2 + seq!['\n']).drop_last() =~= s2);
            }
            assert(u.last() == l);
            assert(s =~= s2.push(s.last()));
            assert(joined_lines(u) =~= s + seq!['\n']);
        }
    }
}

/// Joining the pieces of a split gives back the text.
proof fn lemma_join_split(s: Seq<char>, c: char)
    ensures
        join_with(split_on(s, c), seq![c]) == s,
    decreases s.len(),
{
    lemma_split_on_nonempty(s, c);
    if s.len() == 0 {
        assert(split_on(s, c) =~= seq![Seq::<char>::empty()]);
    } else {
        let s2 = s.drop_last();
        lemma_join_split(s2, c);
        lemma_split_on_nonempty(s2, c);
        let r = split_on(s2, c);
        if s.last() == c {
            let e = Seq::<char>::empty();
            assert(split_on(s, c) == r.push(e));
            assert(r.push(e).drop_last() =~= r);
            assert(join_with(r.push(e), seq![c]) =~= s2 + seq![c] + e);
            assert(s =~= s2 + seq![c] + e);
        } else {
            let l = r.last().push(s.last());
            let u = r.update(r.len() - 1, l);
            assert(split_on(s, c) == u);
            if r.len() == 1 {
                assert(join_with(r, seq![c]) == r[0]);
                assert(join_with(u, seq![c]) == u[0]);
                assert(s =~= s2.push(s.last()));
            } else {
                assert(u.drop_last() =~= r.drop_last());
                assert(join_with(u, seq![c]) == join_with(r.drop_last(), seq![c]) + seq![c] + l);
                assert(join_with(r, seq![c]) == join_with(r.drop_last(), seq![c]) + seq![c]
                    + r.last());
                assert(join_with(u, seq![c]) =~= join_with(r, seq![c]).push(s.last()));
                assert(s =~= s2.push(s.last()));
            }
        }
    }
}

/// Trimming twice is trimming once.
pub proof fn lemma_trim_idempotent(x: Seq<char>)
    ensures
        trim_spec(trim_spec(x)) == trim_spec(x),
{
    lemma_leading_space_bound(x);
    let a = x.subrange(leading_space(x) as int, x.len() as int);
    lemma_trailing_space_bound(a);
    let t = trim_spec(x);
    if t.len() > 0 {
        assert(t[0] == a[0]);
        assert(t.last() == a[a.len() - trailing_space(a) - 1]);
    }
    lemma_trim_of_solid(t);
}

/// Trailing newlines after a trimmed text are trimmed away.
proof fn lemma_trim_before_newlines(p: Seq<char>, n: Seq<char>)
    requires
        trim_spec(p) == p,
        p.len() > 0,
        forall|i: int| 0 <= i < n.len() ==> n[i] == '\n',
    ensures
        trim_spec(p + n) == p,
    decreases n.len(),
{
    lemma_trimmed_ends(p);
    let t = p + n;
    assert(t[0] == p[0]);
    assert(leading_space(t) == 0);
    assert(t.subrange(0, t.len() as int) =~= t);
    lemma_trailing_all(p, n);
    assert(t.subrange(0, t.len() - n.len()) =~= p);
}

proof fn lemma_trailing_all(p: Seq<char>, n: Seq<char>)
    requires
        p.len() > 0,
        !is_space(p.last()),
        forall|i: int| 0 <= i < n.len() ==> n[i] == '\n',
    ensures
        trailing_space(p + n) == n.len(),
    decreases n.len(),
{
    let t = p + n;
    if n.len() == 0 {
        assert(t =~= p);
    } else {
        assert(t.last() == '\n');
        assert(t.drop_last() =~= p + n.drop_last());
        lemma_trailing_all(p, n.drop_last());
    }
}

/// A preamble the reader gives back: once trimmed, it has no carriage return and no line
/// that reads as an item heading.
pub open spec fn quiet_preamble(preamble: Seq<char>) -> bool {
    let p = trim_spec(preamble);
    &&& !p.contains('\r')
    &&& forall|i: int|
        0 <= i < split_on(p, '\n').len() ==> heading_parts(#[trigger] split_on(p, '\n')[i]) is None
}

/// The lines before the first item: the preamble's lines and a blank line, when there is a
/// preamble.
pub open spec fn preamble_lines(preamble: Seq<char>) -> Seq<Seq<char>> {
    let p = trim_spec(preamble);
    if p.len() > 0 {
        split_on(p, '\n') + seq![Seq::<char>::empty()]
    } else {
        Seq::empty()
    }
}

proof fn lemma_preamble_lines(preamble: Seq<char>)
    requires
        quiet_preamble(preamble),
    ensures
        heading_indices(preamble_lines(preamble)) == Seq::<int>::empty(),
        forall|i: int|
            0 <= i < preamble_lines(preamble).len() ==> plain_line(
                #[trigger] preamble_lines(preamble)[i],
            ),
        trim_spec(preamble).len() > 0 ==> joined_lines(preamble_lines(preamble)) == trim_spec(
            preamble,
        ) + seq!['\n', '\n'],
        trim_spec(join_with(preamble_lines(preamble), seq!['\n'])) == trim_spec(preamble),
{
    let p = trim_spec(preamble);
    let pl = preamble_lines(preamble);
    let e = Seq::<char>::empty();
    lemma_trim_idempotent(preamble);
    if p.len() > 0 {
        let sp = split_on(p, '\n');
        lemma_split_on_nonempty(p, '\n');
        lemma_split_pieces(p, '\n');
        lemma_not_heading(e);
        assert forall|i: int| 0 <= i < pl.len() implies heading_parts(#[trigger] pl[i]) is None by {
            if i < sp.len() {
                assert(pl[i] == sp[i]);
            } else {
                assert(pl[i] == e);
            }
        }
        lemma_no_headings(pl);
        assert forall|i: int| 0 <= i < pl.len() implies plain_line(#[trigger] pl[i]) by {
            if i < sp.len() {
                assert(pl[i] == sp[i]);
                assert(!sp[i].contains('\n'));
                if sp[i].len() > 0 && sp[i].last() == '\r' {
                    assert(sp[i].contains('\r'));
                    assert(p.contains('\r'));
                }
            } else {
                assert(pl[i] == e);
            }
        }
        lemma_joined_split(p);
        lemma_joined_append(sp, seq![e]);
        lemma_joined_blank();
        assert(joined_lines(pl) =~= p + seq!['\n', '\n']);
        lemma_join_split(p, '\n');
        if sp.len() == 1 {
            assert(pl =~= seq![sp[0], e]);
            assert(pl.drop_last() =~= seq![sp[0]]);
            assert(join_with(pl, seq!['\n']) == join_with(seq![sp[0]], seq!['\n']) + seq!['\n'] + e);
        } else {
            assert(pl.drop_last() =~= sp);
            assert(join_with(pl, seq!['\n']) == join_with(sp, seq!['\n']) + seq!['\n'] + e);
        }
        assert(join_with(pl, seq!['\n']) =~= p + seq!['\n']);
        lemma_trim_before_newlines(p, seq!['\n']);
    } else {
        assert(heading_indices(pl) =~= Seq::<int>::empty());
        assert(join_with(pl, seq!['\n']) =~= Seq::<char>::empty());
        lemma_trim_of_solid(Seq::<char>::empty());
    }
}

proof fn lemma_chunks_plain(items: Seq<ItemModel>)
    requires
        all_faithful(items),
    ensures
        forall|i: int| 0 <= i < chunks_from(items).len() ==> plain_line(#[trigger] chunks_from(items)[i]),
        items.len() >= 1 ==> chunks_from(items).len() >= 1,
    decreases items.len(),
{
    let c = chunks_from(items);
    if items.len() >= 1 {
        assert(faithful_item(items[0]));
        lemma_item_lines_plain(items[0]);
        let l0 = item_lines(items[0]);
        if items.len() >= 2 {
            let rest = items.drop_first();
            assert(all_faithful(rest)) by {
                assert forall|i: int| 0 <= i < rest.len() implies faithful_item(#[trigger] rest[i]) by {
                    assert(rest[i] == items[i + 1]);
                }
            }
            lemma_chunks_plain(rest);
            let c2 = chunks_from(rest);
            let e = Seq::<char>::empty();
            assert(c == l0 + seq![e] + c2);
            assert forall|i: int| 0 <= i < c.len() implies plain_line(#[trigger] c[i]) by {
                if i < l0.len() {
                    assert(c[i] == l0[i]);
                } else if i == l0.len() {
                    assert(c[i] == e);
                } else {
                    assert(c[i] == c2[i - l0.len() - 1]);
                }
            }
        }
    }
}

proof fn lemma_joined_ends(ls: Seq<Seq<char>>)
    requires
        ls.len() >= 1,
    ensures
        joined_lines(ls).len() > 0,
        joined_lines(ls).last() == '\n',
{
}

/// A plan document whose items are faithful and have distinct ids, and whose preamble is
/// quiet, reads back from its rendering as the same document: the preamble trimmed and the
/// items in id order.
pub proof fn lemma_document_round_trip(doc: DocumentModel)
    requires
        all_faithful(doc.items),
        distinct_ids(doc.items),
        quiet_preamble(doc.preamble),
    ensures
        parse_document_spec(rendered_document(doc)) == Ok::<DocumentModel, ParseErrorModel>(
            DocumentModel { preamble: trim_spec(doc.preamble), items: sort_by_id(doc.items) },
        ),
{
    reveal_strlit("\n");
    reveal_strlit("\n\n");
    let p = trim_spec(doc.preamble);
    let sorted = sort_by_id(doc.items);
    lemma_sort_by_id(doc.items);
    assert(all_faithful(sorted)) by {
        assert forall|i: int| 0 <= i < sorted.len() implies faithful_item(#[trigger] sorted[i]) by {
            assert(doc.items.contains(sorted[i]));
            let w = choose|w: int| 0 <= w < doc.items.len() && doc.items[w] == sorted[i];
            assert(faithful_item(doc.items[w]));
        }
    }
    lemma_trim_idempotent(doc.preamble);
    lemma_preamble_lines(doc.preamble);
    let pre = preamble_lines(doc.preamble);
    let head = if p.len() > 0 {
        p + "\n\n"@
    } else {
        Seq::<char>::empty()
    };
    assert(head == joined_lines(pre)) by {
        if p.len() > 0 {
            assert("\n\n"@ =~= seq!['\n', '\n']);
        } else {
            assert(pre =~= Seq::<Seq<char>>::empty());
        }
    }
    let rs = sorted.map_values(|i: ItemModel| rendered_item(i));
    let body = head + join_with(rs, "\n"@);
    assert("\n"@ =~= seq!['\n']);
    let e = Seq::<char>::empty();
    if sorted.len() == 0 {
        assert(rs =~= Seq::<Seq<char>>::empty());
        assert(body =~= head);
        assert(sorted =~= Seq::<ItemModel>::empty());
        if p.len() > 0 {
            lemma_joined_ends(pre);
            assert(rendered_document(doc) == body);
            lemma_lines_of_joined(pre);
            lemma_trim_before_newlines(p, seq!['\n', '\n']);
            assert(p + "\n\n"@ =~= p + seq!['\n', '\n']);
        } else {
            assert(rendered_document(doc) =~= seq!['\n']);
            lemma_joined_blank();
            lemma_not_heading(e);
            assert(plain_line(e));
            lemma_lines_of_joined(seq![e]);
            lemma_no_headings(seq![e]);
            let nl = seq!['\n'];
            assert(leading_space(nl.drop_first()) == 0);
            assert(leading_space(nl) == 1);
            assert(nl.subrange(1, 1) =~= e);
            assert(trim_spec(nl) =~= e);
        }
    } else {
        let c = chunks_from(sorted);
        lemma_join_rendered(sorted, rs);
        lemma_joined_append(pre, c);
        lemma_chunks_plain(sorted);
        lemma_joined_ends(pre + c);
        assert(body == joined_lines(pre + c));
        assert(rendered_document(doc) == body);
        assert forall|i: int| 0 <= i < (pre + c).len() implies plain_line(#[trigger] (pre + c)[i]) by {
            if i < pre.len() {
                assert((pre + c)[i] == pre[i]);
            } else {
                assert((pre + c)[i] == c[i - pre.len()]);
            }
        }
        lemma_lines_of_joined(pre + c);
        let lines = pre + c;
        lemma_blocks_after(pre, sorted);
        lemma_parse_chunks(pre, sorted);
        lemma_sort_sorted(sorted);
        lemma_no_duplicate(sorted);
        let starts = heading_indices(lines);
        assert(lines.take(starts[0]) =~= pre);
    }
}

// ---------------------------------------------------------------------------
// Reading a plan back after an edit
// ---------------------------------------------------------------------------

/// Sorted items with no neighbouring duplicate have distinct ids.
proof fn lemma_distinct_of_no_duplicate(items: Seq<ItemModel>)
    requires
        sorted_by_id(items),
        first_duplicate(items) is None,
    ensures
        distinct_ids(items),
    decreases items.len(),
{
    if items.len() >= 2 {
        let rest = items.drop_first();
        assert(sorted_by_id(rest)) by {
            assert forall|i: int, j: int| 0 <= i < j < rest.len() implies (#[trigger] rest[i]).id
                <= (#[trigger] rest[j]).id by {
                assert(rest[i] == items[i + 1] && rest[j] == items[j + 1]);
            }
        }
        lemma_distinct_of_no_duplicate(rest);
        assert forall|i: int, j: int| 0 <= i < j < items.len() implies (#[trigger] items[i]).id
            != (#[trigger] items[j]).id by {
            if i == 0 {
                assert(items[0].id != items[1].id);
                assert(items[1].id <= items[j].id);
            } else {
                assert(items[i] == rest[i - 1] && items[j] == rest[j - 1]);
            }
        }
    }
}

/// What a read gives: items in strictly increasing id order and a trimmed preamble.
pub proof fn lemma_parsed_document(raw: Seq<char>)
    requires
        parse_document_spec(raw) is Ok,
    ensures
        sorted_by_id(parse_document_spec(raw)->Ok_0.items),
        distinct_ids(parse_document_spec(raw)->Ok_0.items),
        trim_spec(parse_document_spec(raw)->Ok_0.preamble) == parse_document_spec(raw)->Ok_0.preamble,
{
    let lines = lines_of(raw);
    let starts = heading_indices(lines);
    if starts.len() == 0 {
        lemma_trim_idempotent(raw);
    } else {
        let items = parse_blocks(lines, starts, 0)->Ok_0;
        lemma_sort_by_id(items);
        lemma_distinct_of_no_duplicate(sort_by_id(items));
        lemma_trim_idempotent(join_with(lines.take(starts[0]), seq!['\n']));
    }
}

/// A document whose items are faithful, in strictly increasing id order, under a quiet
/// trimmed preamble, reads back from its rendering as itself.
proof fn lemma_reads_back(preamble: Seq<char>, items: Seq<ItemModel>)
    requires
        trim_spec(preamble) == preamble,
        quiet_preamble(preamble),
        all_faithful(items),
        sorted_by_id(items),
        distinct_ids(items),
    ensures
        parse_document_spec(rendered_document(DocumentModel { preamble, items })) == Ok::<
            DocumentModel,
            ParseErrorModel,
        >(DocumentModel { preamble, items }),
{
    lemma_document_round_trip(DocumentModel { preamble, items });
    lemma_sort_sorted(items);
}

/// Adding an item: the plan written after the add reads back as the items read before,
/// then the new item under the next id (one past the largest in use), for a plan whose
/// items and preamble read back whole and a new item that does too.
pub proof fn lemma_read_after_add(raw: Seq<char>, item: ItemModel)
    requires
        parse_document_spec(raw) is Ok,
        all_faithful(parse_document_spec(raw)->Ok_0.items),
        quiet_preamble(parse_document_spec(raw)->Ok_0.preamble),
        max_id(parse_document_spec(raw)->Ok_0.items) < u64::MAX,
        faithful_item(
            ItemModel { id: (max_id(parse_document_spec(raw)->Ok_0.items) + 1) as u64, ..item },
        ),
    ensures
        ({
            let m = parse_document_spec(raw)->Ok_0;
            let added = ItemModel { id: (max_id(m.items) + 1) as u64, ..item };
            let after = DocumentModel { preamble: m.preamble, items: m.items.push(added) };
            parse_document_spec(rendered_document(after)) == Ok::<DocumentModel, ParseErrorModel>(
                after,
            )
        }),
{
    let m = parse_document_spec(raw)->Ok_0;
    let added = ItemModel { id: (max_id(m.items) + 1) as u64, ..item };
    let items = m.items.push(added);
    lemma_parsed_document(raw);
    lemma_max_id(m.items);
    assert(all_faithful(items)) by {
        assert forall|i: int| 0 <= i < items.len() implies faithful_item(#[trigger] items[i]) by {
            if i < m.items.len() {
                assert(items[i] == m.items[i]);
            }
        }
    }
    assert forall|i: int, j: int| 0 <= i < j < items.len() implies (#[trigger] items[i]).id
        < (#[trigger] items[j]).id by {
        assert(items[i] == m.items[i]);
        if j < m.items.len() {
            assert(items[j] == m.items[j]);
        } else {
            assert(m.items[i].id <= max_id(m.items));
        }
    }
    lemma_reads_back(m.preamble, items);
}

/// The items kept by a deletion come in the same order from the items before it.
proof fn lemma_without_id_order(items: Seq<ItemModel>, id: u64)
    requires
        all_faithful(items),
        sorted_by_id(items),
        distinct_ids(items),
    ensures
        all_faithful(without_id(items, id)),
        sorted_by_id(without_id(items, id)),
        distinct_ids(without_id(items, id)),
        forall|i: int|
            0 <= i < without_id(items, id).len() ==> items.contains(
                #[trigger] without_id(items, id)[i],
            ),
    decreases items.len(),
{
    if items.len() > 0 {
        let init = items.drop_last();
        let last = items.last();
        assert(all_faithful(init) && sorted_by_id(init) && distinct_ids(init)) by {
            assert forall|i: int| 0 <= i < init.len() implies faithful_item(#[trigger] init[i]) by {
                assert(init[i] == items[i]);
            }
            assert forall|i: int, j: int| 0 <= i < j < init.len() implies (#[trigger] init[i]).id
                <= (#[trigger] init[j]).id && init[i].id != init[j].id by {
                assert(init[i] == items[i] && init[j] == items[j]);
            }
        }
        lemma_without_id_order(init, id);
        let w = without_id(init, id);
        assert forall|i: int| 0 <= i < w.len() implies items.contains(#[trigger] w[i])
            && w[i].id < last.id by {
            let k = choose|k: int| 0 <= k < init.len() && init[k] == w[i];
            assert(items[k] == w[i]);
            assert(items[k].id <= items[items.len() - 1].id);
            assert(items[k].id != items[items.len() - 1].id);
        }
        if last.id != id {
            let r = w.push(last);
            assert(items[items.len() - 1] == last);
            assert forall|i: int| 0 <= i < r.len() implies faithful_item(#[trigger] r[i])
                && items.contains(r[i]) by {
                if i < w.len() {
                    assert(r[i] == w[i]);
                }
            }
            assert forall|i: int, j: int| 0 <= i < j < r.len() implies (#[trigger] r[i]).id
                < (#[trigger] r[j]).id by {
                assert(r[i] == w[i]);
                if j < w.len() {
                    assert(r[j] == w[j]);
                }
            }
        }
    }
}

/// Deleting an item: the plan written after the delete reads back as the items read
/// before without those with that id, in the same order, for a plan whose items and
/// preamble read back whole.
pub proof fn lemma_read_after_delete(raw: Seq<char>, id: u64)
    requires
        parse_document_spec(raw) is Ok,
        all_faithful(parse_document_spec(raw)->Ok_0.items),
        quiet_preamble(parse_document_spec(raw)->Ok_0.preamble),
    ensures
        ({
            let m = parse_document_spec(raw)->Ok_0;
            let after = DocumentModel { preamble: m.preamble, items: without_id(m.items, id) };
            parse_document_spec(rendered_document(after)) == Ok::<DocumentModel, ParseErrorModel>(
                after,
            )
        }),
{
    let m = parse_document_spec(raw)->Ok_0;
    lemma_parsed_document(raw);
    lemma_without_id_order(m.items, id);
    lemma_reads_back(m.preamble, without_id(m.items, id));
}

/// Editing an item: the plan written after the edit reads back as the items read before
/// with the item of that id replaced by the new one, for a plan whose items and preamble
/// read back whole and a new item that does too.
pub proof fn lemma_read_after_edit(raw: Seq<char>, item: ItemModel)
    requires
        parse_document_spec(raw) is Ok,
        all_faithful(parse_document_spec(raw)->Ok_0.items),
        quiet_preamble(parse_document_spec(raw)->Ok_0.preamble),
        first_with_id(parse_document_spec(raw)->Ok_0.items, item.id) is Some,
        faithful_item(item),
    ensures
        ({
            let m = parse_document_spec(raw)->Ok_0;
            let k = first_with_id(m.items, item.id)->0;
            let after = DocumentModel { preamble: m.preamble, items: m.items.update(k, item) };
            parse_document_spec(rendered_document(after)) == Ok::<DocumentModel, ParseErrorModel>(
                after,
            )
        }),
{
    let m = parse_document_spec(raw)->Ok_0;
    let k = first_with_id(m.items, item.id)->0;
    lemma_parsed_document(raw);
    lemma_first_with_id(m.items, item.id);
    let items = m.items.update(k, item);
    assert forall|i: int| 0 <= i < items.len() implies faithful_item(#[trigger] items[i])
        && items[i].id == m.items[i].id by {
        if i != k {
            assert(items[i] == m.items[i]);
        }
    }
    assert forall|i: int, j: int| 0 <= i < j < items.len() implies (#[trigger] items[i]).id
        <= (#[trigger] items[j]).id && items[i].id != items[j].id by {
        assert(items[i].id == m.items[i].id && items[j].id == m.items[j].id);
    }
    lemma_reads_back(m.preamble, items);
}

// ---------------------------------------------------------------------------
// Reading a plan back after a status update
// ---------------------------------------------------------------------------

/// The items with the status of those with id `id` set to `s`.
pub open spec fn with_status(items: Seq<ItemModel>, id: u64, s: PlanStatus) -> Seq<ItemModel> {
    items.map_values(|it: ItemModel| if it.id == id { ItemModel { status: s, ..it } } else { it })
}

/// The ids of items, in order.
pub open spec fn ids_of(items: Seq<ItemModel>) -> Seq<u64> {
    items.map_values(|it: ItemModel| it.id)
}

proof fn lemma_insert_position_ids(a: Seq<ItemModel>, b: Seq<ItemModel>, id: u64)
    requires
        ids_of(a) == ids_of(b),
    ensures
        insert_position(a, id) == insert_position(b, id),
    decreases a.len(),
{
    assert(a.len() == ids_of(a).len() && b.len() == ids_of(b).len());
    if a.len() > 0 {
        assert(ids_of(a.drop_last()) =~= ids_of(a).drop_last());
        assert(ids_of(b.drop_last()) =~= ids_of(b).drop_last());
        assert(a.last().id == ids_of(a)[a.len() - 1]);
        assert(b.last().id == ids_of(b)[b.len() - 1]);
        lemma_insert_position_ids(a.drop_last(), b.drop_last(), id);
    }
}

/// Setting a status keeps the ids.
proof fn lemma_with_status_ids(items: Seq<ItemModel>, id: u64, s: PlanStatus)
    ensures
        ids_of(with_status(items, id, s)) == ids_of(items),
{
    assert(ids_of(with_status(items, id, s)) =~= ids_of(items));
}

/// Sorting by id and setting a status can be done in either order.
proof fn lemma_sort_with_status(items: Seq<ItemModel>, id: u64, s: PlanStatus)
    ensures
        sort_by_id(with_status(items, id, s)) == with_status(sort_by_id(items), id, s),
    decreases items.len(),
{
    if items.len() > 0 {
        let init = items.drop_last();
        let x = items.last();
        let w = with_status(items, id, s);
        assert(w.drop_last() =~= with_status(init, id, s));
        let fx = if x.id == id { ItemModel { status: s, ..x } } else { x };
        assert(w.last() == fx);
        lemma_sort_with_status(init, id, s);
        let rest = sort_by_id(init);
        lemma_with_status_ids(rest, id, s);
        lemma_insert_position_ids(with_status(rest, id, s), rest, x.id);
        lemma_sort_by_id(init);
        let pos = insert_position(rest, x.id);
        lemma_insert_position(rest, x.id);
        assert(with_status(rest, id, s).insert(pos, fx) =~= with_status(rest.insert(pos, x), id, s));
    }
}

/// Setting a status keeps the first duplicate id.
proof fn lemma_with_status_duplicate(items: Seq<ItemModel>, id: u64, s: PlanStatus)
    ensures
        first_duplicate(with_status(items, id, s)) == first_duplicate(items),
    decreases items.len(),
{
    if items.len() >= 2 {
        assert(with_status(items, id, s).drop_first() =~= with_status(items.drop_first(), id, s));
        lemma_with_status_duplicate(items.drop_first(), id, s);
    }
}

/// Sorting keeps the ids, counted with repetition.
proof fn lemma_sort_ids_multiset(items: Seq<ItemModel>)
    ensures
        ids_of(sort_by_id(items)).to_multiset() == ids_of(items).to_multiset(),
    decreases items.len(),
{
    if items.len() > 0 {
        let init = items.drop_last();
        let x = items.last();
        lemma_sort_ids_multiset(init);
        let rest = sort_by_id(init);
        lemma_sort_by_id(init);
        lemma_insert_position(rest, x.id);
        let pos = insert_position(rest, x.id);
        assert(ids_of(rest.insert(pos, x)) =~= ids_of(rest).insert(pos, x.id));
        vstd::seq_lib::to_multiset_insert(ids_of(rest), pos, x.id);
        assert(ids_of(items) =~= ids_of(init).push(x.id));
        vstd::seq_lib::to_multiset_build(ids_of(init), x.id);
    }
}

/// Items whose sorted order has distinct ids have distinct ids themselves.
proof fn lemma_distinct_before_sorting(items: Seq<ItemModel>)
    requires
        distinct_ids(sort_by_id(items)),
    ensures
        distinct_ids(items),
{
    let a = ids_of(sort_by_id(items));
    let b = ids_of(items);
    lemma_sort_by_id(items);
    assert(a.no_duplicates()) by {
        assert forall|i: int, j: int| 0 <= i < a.len() && 0 <= j < a.len() && i != j implies a[i]
            != a[j] by {
            if i < j {
                assert(sort_by_id(items)[i].id != sort_by_id(items)[j].id);
            } else {
                assert(sort_by_id(items)[j].id != sort_by_id(items)[i].id);
            }
        }
    }
    lemma_sort_ids_multiset(items);
    a.lemma_multiset_has_no_duplicates();
    b.lemma_multiset_has_no_duplicates_conv();
    assert forall|i: int, j: int| 0 <= i < j < items.len() implies (#[trigger] items[i]).id
        != (#[trigger] items[j]).id by {
        assert(b[i] == items[i].id && b[j] == items[j].id);
    }
}

/// The body lines with each `Status:` line replaced by the one of `s`.
pub open spec fn status_replaced(body: Seq<Seq<char>>, s: PlanStatus) -> Seq<Seq<char>> {
    body.map_values(|l: Seq<char>| if is_status_line(l) { status_field_text(s) } else { l })
}

/// Whether some line of a body is a `Status:` line.
pub open spec fn has_status_line(body: Seq<Seq<char>>) -> bool {
    exists|q: int| 0 <= q < body.len() && #[trigger] is_status_line(body[q])
}

/// A `Status:` line that reads without error sets the status and closes the deliverables.
proof fn lemma_status_line_step(id: u64, st: FieldsModel, l: Seq<char>)
    requires
        is_status_line(l),
        field_step(id, st, l) is Ok,
    ensures
        field_step(id, st, l)->Ok_0 == (FieldsModel {
            status: field_step(id, st, l)->Ok_0.status,
            in_deliverables: false,
            ..st
        }),
        field_step(id, st, l)->Ok_0.status is Some,
{
    assert(l.subrange(0, 6) == field_prefix());
    assert(l[4] == l.subrange(0, 6)[4]);
    assert(l[4] == '-');
    lemma_trim_keeps(l, 4);
    assert(deliverable_prefix()[4] == ' ');
    if starts_with_spec(l, deliverable_prefix()) {
        assert(l[4] == l.subrange(0, 10)[4]);
    }
    let body = l.skip(6);
    reveal_strlit("Deliverables:");
    reveal_strlit("status");
    if ascii_lower_seq(body) == ascii_lower_seq("Deliverables:"@) {
        let d = "Deliverables:"@;
        assert(d.len() == 13);
        assert(ascii_lower_seq(body).len() == body.len());
        assert(ascii_lower_seq(d).len() == d.len());
        assert(body.len() == 13);
        assert forall|j: int| 0 <= j < 12 implies body[j] != ':' by {
            assert(ascii_lower_seq(body)[j] == ascii_lower(body[j]));
            assert(ascii_lower_seq(d)[j] == ascii_lower(d[j]));
        }
        assert(ascii_lower_seq(body)[12] == ascii_lower(body[12]));
        assert(ascii_lower_seq(d)[12] == ascii_lower(d[12]));
        assert(body[12] == ':');
        lemma_first_index_of(body, ':');
        let c = first_index_of(body, ':')->0;
        assert(c == 12);
        let raw = body.take(12);
        assert(ascii_lower_seq(body)[0] == ascii_lower(body[0]));
        assert(ascii_lower_seq(d)[0] == ascii_lower(d[0]));
        assert(ascii_lower_seq(body)[11] == ascii_lower(body[11]));
        assert(ascii_lower_seq(d)[11] == ascii_lower(d[11]));
        assert(raw[0] == body[0] && raw.last() == body[11]);
        lemma_trim_of_solid(raw);
        assert(ascii_lower_seq(trim_spec(raw)).len() == 12);
        assert(false);
    }
    let closed = FieldsModel { in_deliverables: false, ..st };
    assert(field_step(id, st, l) == field_line(id, closed, l));
    let c = first_index_of(body, ':')->0;
    assert(ascii_lower_seq(trim_spec(body.take(c))) == "status"@);
    assert(!(ascii_lower_seq(trim_spec(body.take(c))) == "priority"@)) by {
        reveal_strlit("priority");
        reveal_strlit("status");
        assert("status"@[0] != "priority"@[0]);
    }
    assert(!(ascii_lower_seq(trim_spec(body.take(c))) == "cards"@)) by {
        reveal_strlit("cards");
        reveal_strlit("status");
        assert("status"@[0] != "cards"@[0]);
    }
    assert(!(ascii_lower_seq(trim_spec(body.take(c))) == "description"@)) by {
        reveal_strlit("description");
        reveal_strlit("status");
        assert("status"@[0] != "description"@[0]);
    }
    assert(!(ascii_lower_seq(trim_spec(body.take(c))) == "acceptance criteria"@)) by {
        reveal_strlit("acceptance criteria");
        reveal_strlit("status");
        assert("status"@[0] != "acceptance criteria"@[0]);
    }
    assert(!(ascii_lower_seq(trim_spec(body.take(c))) == "notes"@)) by {
        reveal_strlit("notes");
        reveal_strlit("status");
        assert("status"@[0] != "notes"@[0]);
    }
    let value = trim_spec(body.skip(c + 1));
    assert(field_line(id, closed, l) == match status_of(value) {
        Some(x) => Ok::<FieldsModel, ParseErrorModel>(FieldsModel { status: Some(x), ..closed }),
        None => Err(ParseErrorModel::InvalidStatus(ascii_lower_seq(trim_spec(value)))),
    });
}

/// The `Status:` line of a status sets it and closes the deliverables.
proof fn lemma_status_text_step(id: u64, st: FieldsModel, s: PlanStatus)
    ensures
        field_step(id, st, status_field_text(s)) == Ok::<FieldsModel, ParseErrorModel>(
            FieldsModel { status: Some(s), in_deliverables: false, ..st },
        ),
{
    reveal_strlit("    - Status: ");
    reveal_strlit("Status");
    assert(status_field_text(s) =~= field_text("Status"@, status_text(s)));
    lemma_read_status(id, st, s);
}

/// A line that is no `Status:` line reads the same whatever status was read before.
proof fn lemma_other_line_step(id: u64, st: FieldsModel, t: Option<PlanStatus>, l: Seq<char>)
    requires
        !is_status_line(l),
        field_step(id, st, l) is Ok,
    ensures
        field_step(id, FieldsModel { status: t, ..st }, l) == Ok::<FieldsModel, ParseErrorModel>(
            FieldsModel { status: t, ..field_step(id, st, l)->Ok_0 },
        ),
        field_step(id, st, l)->Ok_0.status == st.status,
{
    reveal_strlit("status");
}

/// Replacing the `Status:` lines of a body that reads without error by those of `s`: the
/// body reads as before, but with status `s` when it has a `Status:` line (else the status
/// read before it).
proof fn lemma_fold_status_replaced(
    id: u64,
    st: FieldsModel,
    t: Option<PlanStatus>,
    body: Seq<Seq<char>>,
    s: PlanStatus,
)
    requires
        fold_fields(id, st, body) is Ok,
    ensures
        fold_fields(id, FieldsModel { status: t, ..st }, status_replaced(body, s)) == Ok::<
            FieldsModel,
            ParseErrorModel,
        >(
            FieldsModel {
                status: if has_status_line(body) {
                    Some(s)
                } else {
                    t
                },
                ..fold_fields(id, st, body)->Ok_0
            },
        ),
    decreases body.len(),
{
    let st2 = FieldsModel { status: t, ..st };
    if body.len() == 0 {
        assert(status_replaced(body, s) =~= Seq::<Seq<char>>::empty());
    } else {
        let l = body[0];
        let rest = body.drop_first();
        let rb = status_replaced(body, s);
        assert(rb.drop_first() =~= status_replaced(rest, s));
        assert(rb[0] == if is_status_line(l) { status_field_text(s) } else { l });
        let next = field_step(id, st, l)->Ok_0;
        if is_status_line(l) {
            lemma_status_line_step(id, st, l);
            lemma_status_text_step(id, st2, s);
            let next2 = FieldsModel { status: Some(s), in_deliverables: false, ..st2 };
            assert(next2 == FieldsModel { status: Some(s), ..next });
            lemma_fold_status_replaced(id, next, Some(s), rest, s);
            assert(has_status_line(body)) by {
                assert(is_status_line(body[0]));
            }
        } else {
            lemma_other_line_step(id, st, t, l);
            lemma_fold_status_replaced(id, next, t, rest, s);
            assert(has_status_line(body) == has_status_line(rest)) by {
                if has_status_line(body) {
                    let q = choose|q: int| 0 <= q < body.len() && #[trigger] is_status_line(body[q]);
                    assert(q != 0);
                    assert(rest[q - 1] == body[q]);
                }
                if has_status_line(rest) {
                    let q = choose|q: int| 0 <= q < rest.len() && #[trigger] is_status_line(rest[q]);
                    assert(body[q + 1] == rest[q]);
                }
            }
        }
    }
}

/// The pieces of a split hold no separator.
proof fn lemma_split_pieces_clean(t: Seq<char>, sep: char)
    ensures
        forall|q: int|
            0 <= q < split_on(t, sep).len() ==> !(#[trigger] split_on(t, sep)[q]).contains(sep),
    decreases t.len(),
{
    lemma_split_on_nonempty(t, sep);
    if t.len() > 0 {
        lemma_split_pieces_clean(t.drop_last(), sep);
        lemma_split_on_nonempty(t.drop_last(), sep);
        let rest = split_on(t.drop_last(), sep);
        let r = split_on(t, sep);
        if t.last() == sep {
            assert forall|q: int| 0 <= q < r.len() implies !(#[trigger] r[q]).contains(sep) by {
                if q < rest.len() {
                    assert(r[q] == rest[q]);
                } else {
                    assert(r[q] =~= Seq::<char>::empty());
                }
            }
        } else {
            let k = rest.len() - 1;
            assert forall|q: int| 0 <= q < r.len() implies !(#[trigger] r[q]).contains(sep) by {
                if q < k {
                    assert(r[q] == rest[q]);
                } else {
                    assert(r[q] == rest[k].push(t.last()));
                    if r[q].contains(sep) {
                        let i = choose|i: int| 0 <= i < r[q].len() && r[q][i] == sep;
                        if i < rest[k].len() {
                            assert(rest[k][i] == sep);
                        }
                    }
                }
            }
        }
    }
}

/// Pieces without separators, joined by the separator, split back into the same pieces.
proof fn lemma_split_join(pieces: Seq<Seq<char>>)
    requires
        pieces.len() >= 1,
        forall|q: int| 0 <= q < pieces.len() ==> !(#[trigger] pieces[q]).contains('\n'),
    ensures
        split_on(join_with(pieces, seq!['\n']), '\n') == pieces,
    decreases pieces.len(),
{
    if pieces.len() == 1 {
        assert(!pieces[0].contains('\n'));
        crate::path_encoding::lemma_split_whole(pieces[0], '\n');
        assert(seq![pieces[0]] =~= pieces);
    } else {
        let init = pieces.drop_last();
        assert forall|q: int| 0 <= q < init.len() implies !(#[trigger] init[q]).contains('\n') by {
            assert(init[q] == pieces[q]);
        }
        lemma_split_join(init);
        assert(!pieces[pieces.len() - 1].contains('\n'));
        lemma_split_sep_piece(join_with(init, seq!['\n']), pieces.last(), '\n');
        assert(init.push(pieces.last()) =~= pieces);
    }
}

/// The lines `str::lines` gives for the split pieces of a text.
pub open spec fn lines_from(pieces: Seq<Seq<char>>) -> Seq<Seq<char>> {
    let init = pieces.take(pieces.len() - 1).map_values(|p: Seq<char>| strip_cr(p));
    if pieces.last().len() == 0 {
        init
    } else {
        init.push(pieces.last())
    }
}

/// The lines of pieces without newlines joined by newlines.
proof fn lemma_lines_of_join(pieces: Seq<Seq<char>>)
    requires
        pieces.len() >= 1,
        forall|q: int| 0 <= q < pieces.len() ==> !(#[trigger] pieces[q]).contains('\n'),
    ensures
        lines_of(join_with(pieces, seq!['\n'])) == lines_from(pieces),
{
    lemma_split_join(pieces);
}

/// The `q`-th line once the block `[lo, hi)` has its status set: the heading's checkbox
/// and the block's `Status:` lines change.
pub open spec fn edited_line(lines: Seq<Seq<char>>, lo: int, hi: int, s: PlanStatus, q: int) -> Seq<
    char,
> {
    if q == lo {
        marked_heading(lines[q], s)
    } else if lo < q < hi && is_status_line(lines[q]) {
        status_field_text(s)
    } else {
        lines[q]
    }
}

/// A line, then what followed it in its piece, read back as a line: another line of the
/// same kind in its place reads back as itself.
proof fn lemma_strip_tail(l: Seq<char>, tail: Seq<char>, x: Seq<char>)
    requires
        strip_cr(l + tail) == l,
        x.len() > 0,
        x.last() != '\r' || (l.len() > 0 && x.last() == l.last()),
    ensures
        strip_cr(x + tail) == x,
{
    if tail.len() == 0 {
        assert(l + tail =~= l);
        assert(x + tail =~= x);
    } else {
        assert((l + tail).len() > l.len());
        assert((l + tail).drop_last().len() == l.len());
        assert(tail.len() == 1);
        assert((l + tail).last() == '\r');
        assert(tail[0] == (l + tail).last());
        assert((x + tail).drop_last() =~= x);
    }
}

/// A marked heading is the heading with one character before its end set to the mark.
proof fn lemma_marked_shape(line: Seq<char>, s: PlanStatus)
    requires
        heading_parts(line) is Some,
    ensures
        ({
            let (d, m, rest) = heading_parts(line)->0;
            let i = line.len() - rest.len() - 2;
            &&& 0 <= i < line.len() - 1
            &&& marked_heading(line, s) == line.update(i, mark_of(s))
        }),
{
    lemma_heading_rest(line);
}

/// The status keywords do not end with a carriage return.
proof fn lemma_status_field_shape(s: PlanStatus)
    ensures
        status_field_text(s).len() > 0,
        status_field_text(s).last() != '\r',
        !status_field_text(s).contains('\n'),
{
    reveal_strlit("    - Status: ");
    reveal_strlit("planned");
    reveal_strlit("in-progress");
    reveal_strlit("completed");
    reveal_strlit("cancelled");
    let t = status_field_text(s);
    if t.contains('\n') {
        let i = choose|i: int| 0 <= i < t.len() && t[i] == '\n';
        if i < 14 {
            assert(t[i] == "    - Status: "@[i]);
        } else {
            assert(t[i] == status_text(s)[i - 14]);
        }
    }
}

/// Each edited piece of a text: no newline in it, and it reads back as the edited line.
proof fn lemma_edited_piece(raw: Seq<char>, lo: int, hi: int, s: PlanStatus, q: int)
    requires
        0 <= lo < hi <= lines_of(raw).len(),
        heading_parts(lines_of(raw)[lo]) is Some,
        0 <= q < split_on(raw, '\n').len(),
    ensures
        ({
            let pieces = split_on(raw, '\n');
            let lines = lines_of(raw);
            let e = edited_piece(pieces, lines, lo, hi, s, q);
            &&& !e.contains('\n')
            &&& q < pieces.len() - 1 ==> strip_cr(e) == edited_line(lines, lo, hi, s, q)
            &&& (q == pieces.len() - 1 && q < lines.len()) ==> e == edited_line(lines, lo, hi, s, q)
            &&& q == pieces.len() - 1 ==> (e.len() == 0 <==> pieces[q].len() == 0)
        }),
{
    let pieces = split_on(raw, '\n');
    let lines = lines_of(raw);
    let n = pieces.len();
    lemma_split_on_nonempty(raw, '\n');
    lemma_split_pieces_clean(raw, '\n');
    assert(!pieces[q].contains('\n'));
    assert(lines == lines_from(pieces));
    assert(q < n - 1 ==> lines[q] == strip_cr(pieces[q]));
    assert((q == n - 1 && q < lines.len()) ==> lines[q] == pieces[q]);
    let e = edited_piece(pieces, lines, lo, hi, s, q);
    if lo <= q < hi && (q == lo || is_status_line(lines[q])) {
        let l = lines[q];
        let tail = pieces[q].skip(l.len() as int);
        if q < n - 1 {
            if pieces[q].len() > 0 && pieces[q].last() == '\r' {
                assert(pieces[q] =~= l + tail);
            } else {
                assert(pieces[q] =~= l + tail);
            }
        } else {
            assert(pieces[q] =~= l + tail);
        }
        assert(!tail.contains('\n')) by {
            if tail.contains('\n') {
                let i = choose|i: int| 0 <= i < tail.len() && tail[i] == '\n';
                assert(pieces[q][i + l.len()] == '\n');
            }
        }
        assert(!l.contains('\n')) by {
            if l.contains('\n') {
                let i = choose|i: int| 0 <= i < l.len() && l[i] == '\n';
                assert(pieces[q][i] == '\n');
            }
        }
        let x = edited_line(lines, lo, hi, s, q);
        if q == lo {
            lemma_marked_shape(l, s);
            assert(x.len() == l.len() && x.last() == l.last());
            assert(mark_of(s) != '\n');
            assert(!x.contains('\n')) by {
                if x.contains('\n') {
                    let i = choose|i: int| 0 <= i < x.len() && x[i] == '\n';
                    assert(x[i] == l[i] || x[i] == mark_of(s));
                }
            }
        } else {
            lemma_status_field_shape(s);
        }
        assert(x.len() > 0);
        assert(e == x + tail);
        assert(!e.contains('\n')) by {
            if e.contains('\n') {
                let i = choose|i: int| 0 <= i < e.len() && e[i] == '\n';
                if i < x.len() {
                    assert(x[i] == '\n');
                } else {
                    assert(tail[i - x.len()] == '\n');
                }
            }
        }
        if q < n - 1 {
            lemma_strip_tail(l, tail, x);
        } else {
            assert(tail.len() == 0);
            assert(e =~= x);
            assert(pieces[q].len() > 0);
        }
    } else {
        assert(e == pieces[q]);
    }
}

/// Texts that agree up to and including the end of the first one's digit run have the same
/// digit run.
proof fn lemma_digit_run_same_prefix(a: Seq<char>, b: Seq<char>)
    requires
        digit_run(a) < a.len(),
        digit_run(a) < b.len(),
        forall|i: int| 0 <= i <= digit_run(a) ==> a[i] == b[i],
    ensures
        digit_run(b) == digit_run(a),
    decreases a.len(),
{
    if digit_run(a) > 0 {
        assert forall|i: int| 0 <= i <= digit_run(a.drop_first()) implies a.drop_first()[i]
            == b.drop_first()[i] by {
            assert(a[i + 1] == b[i + 1]);
        }
        lemma_digit_run_same_prefix(a.drop_first(), b.drop_first());
    } else {
        assert(a[0] == b[0]);
    }
}

/// A heading with its checkbox set reads as the same heading with the new mark.
proof fn lemma_marked_heading_parts(line: Seq<char>, s: PlanStatus)
    requires
        heading_parts(line) is Some,
    ensures
        ({
            let (d, m, rest) = heading_parts(line)->0;
            heading_parts(marked_heading(line, s)) == Some((d, mark_of(s), rest))
        }),
{
    let (d, m, rest) = heading_parts(line)->0;
    lemma_marked_shape(line, s);
    let k = digit_run(line) as int;
    let after = line.skip(k + 1);
    let w = leading_space(after) as int;
    let i = line.len() - rest.len() - 2;
    assert(rest.len() == after.len() - w - 3);
    assert(i == k + 1 + w + 1);
    let x = marked_heading(line, s);
    assert(x == line.update(i, mark_of(s)));
    lemma_digit_run_same_prefix(line, x);
    let after2 = x.skip(k + 1);
    assert(after2 =~= after.update(w + 1, mark_of(s)));
    assert(after2.skip(w + 3) =~= after.skip(w + 3));
    assert forall|j: int| 0 <= j <= w implies after2[j] == after[j] by {}
    crate::text::lemma_leading_space_bound(after);
    lemma_leading_space_prefix(after, after2, w);
    assert(mark_of(s) == ' ' || mark_of(s) == 'x');
    assert(x.take(k) =~= line.take(k));
}

/// Texts that agree on their first `w + 1` characters, where the first has exactly `w`
/// leading spaces, have the same leading spaces.
proof fn lemma_leading_space_prefix(a: Seq<char>, b: Seq<char>, w: int)
    requires
        w == leading_space(a),
        w < a.len(),
        w < b.len(),
        forall|j: int| 0 <= j <= w ==> a[j] == b[j],
    ensures
        leading_space(b) == w,
    decreases w,
{
    if w > 0 {
        assert forall|j: int| 0 <= j <= w - 1 implies a.drop_first()[j] == b.drop_first()[j] by {
            assert(a[j + 1] == b[j + 1]);
        }
        lemma_leading_space_prefix(a.drop_first(), b.drop_first(), w - 1);
    } else {
        assert(a[0] == b[0]);
    }
}

/// A line that starts with a space is no heading.
proof fn lemma_spaced_not_heading(l: Seq<char>)
    requires
        l.len() > 0,
        l[0] == ' ',
    ensures
        heading_parts(l) is None,
{
    assert(!unicode_decimal(' '));
}

/// `Status:` lines are no headings.
proof fn lemma_status_lines_not_headings(l: Seq<char>, s: PlanStatus)
    ensures
        is_status_line(l) ==> heading_parts(l) is None,
        heading_parts(status_field_text(s)) is None,
{
    if is_status_line(l) {
        assert(l.subrange(0, 6) == field_prefix());
        assert(l[0] == l.subrange(0, 6)[0]);
        lemma_spaced_not_heading(l);
    }
    reveal_strlit("    - Status: ");
    assert(status_field_text(s)[0] == ' ');
    lemma_spaced_not_heading(status_field_text(s));
}

/// Lines that are headings at the same places have the same heading positions.
proof fn lemma_heading_indices_same(a: Seq<Seq<char>>, b: Seq<Seq<char>>)
    requires
        a.len() == b.len(),
        forall|q: int| 0 <= q < a.len() ==> (heading_parts(#[trigger] a[q]) is Some) == (heading_parts(
            b[q],
        ) is Some),
    ensures
        heading_indices(a) == heading_indices(b),
    decreases a.len(),
{
    if a.len() > 0 {
        assert forall|q: int| 0 <= q < a.drop_last().len() implies (heading_parts(
            #[trigger] a.drop_last()[q],
        ) is Some) == (heading_parts(b.drop_last()[q]) is Some) by {
            assert(a.drop_last()[q] == a[q] && b.drop_last()[q] == b[q]);
        }
        lemma_heading_indices_same(a.drop_last(), b.drop_last());
        assert(heading_parts(a[a.len() - 1]) is Some == heading_parts(b[b.len() - 1]) is Some);
    }
}

/// Heading positions name heading lines.
proof fn lemma_heading_indices_are_headings(lines: Seq<Seq<char>>)
    ensures
        forall|p: int|
            0 <= p < heading_indices(lines).len() ==> heading_parts(
                lines[#[trigger] heading_indices(lines)[p]],
            ) is Some,
    decreases lines.len(),
{
    if lines.len() > 0 {
        lemma_heading_indices_are_headings(lines.drop_last());
        lemma_heading_indices(lines.drop_last());
        let prev = heading_indices(lines.drop_last());
        assert forall|p: int| 0 <= p < heading_indices(lines).len() implies heading_parts(
            lines[#[trigger] heading_indices(lines)[p]],
        ) is Some by {
            if p < prev.len() {
                assert(heading_indices(lines)[p] == prev[p]);
                assert(lines[prev[p]] == lines.drop_last()[prev[p]]);
            }
        }
    }
}

/// The lines once the block `[lo, hi)` has its status set in place.
pub open spec fn edited_lines(lines: Seq<Seq<char>>, lo: int, hi: int, s: PlanStatus) -> Seq<
    Seq<char>,
> {
    Seq::new(lines.len(), |q: int| edited_line(lines, lo, hi, s, q))
}

/// The lines of a plan text after the status of its `p`-th block is set: the edited lines,
/// with a `Status:` line after the heading when the block had none.
proof fn lemma_updated_lines(raw: Seq<char>, p: int, s: PlanStatus)
    requires
        0 <= p < heading_indices(lines_of(raw)).len(),
        heading_indices(lines_of(raw))[p] + 1 < block_end(
            lines_of(raw),
            heading_indices(lines_of(raw)),
            p,
        ),
    ensures
        ({
            let lines = lines_of(raw);
            let starts = heading_indices(lines);
            let lo = starts[p];
            let hi = block_end(lines, starts, p);
            let el = edited_lines(lines, lo, hi, s);
            lines_of(status_updated_text(raw, p, s)) == if block_has_status(lines, lo, hi) {
                el
            } else {
                el.take(lo + 1) + seq![status_field_text(s)] + el.skip(lo + 1)
            }
        }),
{
    let pieces = split_on(raw, '\n');
    let lines = lines_of(raw);
    let starts = heading_indices(lines);
    let lo = starts[p];
    let hi = block_end(lines, starts, p);
    let n = pieces.len();
    lemma_split_on_nonempty(raw, '\n');
    lemma_split_pieces_clean(raw, '\n');
    lemma_heading_indices(lines);
    lemma_heading_indices_are_headings(lines);
    assert(lines == lines_from(pieces));
    assert(hi <= lines.len()) by {
        if p + 1 < starts.len() {
            assert(starts[p + 1] < lines.len());
        }
    }
    assert(lines.len() <= n);
    assert(lo < n - 1);
    let el = edited_lines(lines, lo, hi, s);
    let e = Seq::new(n, |q: int| edited_piece(pieces, lines, lo, hi, s, q));
    assert forall|q: int| 0 <= q < n implies !(#[trigger] e[q]).contains('\n') && (q < n - 1
        ==> strip_cr(e[q]) == el[q]) && ((q == n - 1 && q < lines.len()) ==> e[q] == el[q]) && (q
        == n - 1 ==> (e[q].len() == 0 <==> pieces[q].len() == 0)) by {
        lemma_edited_piece(raw, lo, hi, s, q);
    }
    let st = status_field_text(s);
    lemma_status_field_shape(s);
    if block_has_status(lines, lo, hi) {
        lemma_lines_of_join(e);
        let r = lines_from(e);
        assert(r.len() == el.len());
        assert forall|q: int| 0 <= q < r.len() implies r[q] == el[q] by {
            if q < n - 1 {
                assert(r[q] == strip_cr(e[q]));
            } else {
                assert(r[q] == e[n - 1]);
            }
        }
        assert(r =~= el);
    } else {
        let tail = pieces[lo].skip(lines[lo].len() as int);
        let z = st + tail;
        assert(lines[lo] == strip_cr(pieces[lo]));
        assert(pieces[lo] =~= lines[lo] + tail);
        assert(!tail.contains('\n')) by {
            if tail.contains('\n') {
                let i = choose|i: int| 0 <= i < tail.len() && tail[i] == '\n';
                assert(pieces[lo][i + lines[lo].len()] == '\n');
            }
        }
        lemma_strip_tail(lines[lo], tail, st);
        assert(!z.contains('\n')) by {
            if z.contains('\n') {
                let i = choose|i: int| 0 <= i < z.len() && z[i] == '\n';
                if i < st.len() {
                    assert(st[i] == '\n');
                } else {
                    assert(tail[i - st.len()] == '\n');
                }
            }
        }
        let all = e.take(lo + 1) + seq![z] + e.skip(lo + 1);
        assert(all.len() == n + 1);
        assert forall|q: int| 0 <= q < all.len() implies !(#[trigger] all[q]).contains('\n') by {
            if q <= lo {
                assert(all[q] == e[q]);
            } else if q == lo + 1 {
                assert(all[q] == z);
            } else {
                assert(all[q] == e[q - 1]);
            }
        }
        assert(status_updated_text(raw, p, s) == join_with(all, seq!['\n']));
        lemma_lines_of_join(all);
        let r = lines_from(all);
        let target = el.take(lo + 1) + seq![st] + el.skip(lo + 1);
        assert(all.last() == e[n - 1]);
        assert(r.len() == target.len());
        assert forall|q: int| 0 <= q < r.len() implies r[q] == target[q] by {
            if q < n {
                assert(r[q] == strip_cr(all[q]));
                if q <= lo {
                    assert(all[q] == e[q]);
                    assert(target[q] == el[q]);
                } else if q == lo + 1 {
                    assert(all[q] == z);
                    assert(target[q] == st);
                } else {
                    assert(all[q] == e[q - 1]);
                    assert(target[q] == el[q - 1]);
                }
            } else {
                assert(r[q] == all[n as int]);
                assert(target[q] == el[q - 1]);
            }
        }
        assert(r =~= target);
    }
}

/// Two block lists that differ at most in block `p`: they read the same items, but for
/// the item of block `p`.
proof fn lemma_parse_blocks_one_changed(
    l1: Seq<Seq<char>>,
    s1: Seq<int>,
    l2: Seq<Seq<char>>,
    s2: Seq<int>,
    p: int,
    y: ItemModel,
    j: int,
)
    requires
        s1.len() == s2.len(),
        0 <= p < s1.len(),
        0 <= j <= s1.len(),
        forall|k: int| j <= k < s1.len() && k != p ==> #[trigger] item_block(l2, s2, k) == item_block(l1, s1, k),
        parse_item_spec(item_block(l2, s2, p)) == Ok::<ItemModel, ParseErrorModel>(y),
        parse_blocks(l1, s1, j) is Ok,
    ensures
        parse_blocks(l2, s2, j) == Ok::<Seq<ItemModel>, ParseErrorModel>(
            if j <= p {
                parse_blocks(l1, s1, j)->Ok_0.update(p - j, y)
            } else {
                parse_blocks(l1, s1, j)->Ok_0
            },
        ),
        parse_blocks(l1, s1, j)->Ok_0.len() == s1.len() - j,
        j <= p ==> parse_item_spec(item_block(l1, s1, p)) == Ok::<ItemModel, ParseErrorModel>(
            parse_blocks(l1, s1, j)->Ok_0[p - j],
        ),
    decreases s1.len() - j,
{
    if j < s1.len() {
        lemma_parse_blocks_one_changed(l1, s1, l2, s2, p, y, j + 1);
        let old = parse_blocks(l1, s1, j)->Ok_0;
        let rest = parse_blocks(l1, s1, j + 1)->Ok_0;
        let x = parse_item_spec(item_block(l1, s1, j))->Ok_0;
        assert(old == seq![x] + rest);
        if j == p {
            assert((seq![x] + rest).update(0, y) =~= seq![y] + rest);
        } else if j < p {
            assert(item_block(l2, s2, j) == item_block(l1, s1, j));
            assert((seq![x] + rest).update(p - j, y) =~= seq![x] + rest.update(p - j - 1, y));
            assert(old[p - j] == rest[p - j - 1]);
        } else {
            assert(item_block(l2, s2, j) == item_block(l1, s1, j));
        }
    }
}

/// Reading an item block whose heading is marked for `s` and whose body is `body2`, where
/// the body `body` read as the old block: `body2` reads from the start as `body` does, but
/// with status `s`. Then the block reads as the old item with status `s`.
proof fn lemma_edited_block_item(
    heading: Seq<char>,
    body: Seq<Seq<char>>,
    body2: Seq<Seq<char>>,
    s: PlanStatus,
)
    requires
        parse_item_spec(seq![heading] + body) is Ok,
        ({
            let id = parse_item_spec(seq![heading] + body)->Ok_0.id;
            &&& fold_fields(id, no_fields(), body) is Ok
            &&& fold_fields(id, no_fields(), body2) == Ok::<FieldsModel, ParseErrorModel>(
                FieldsModel { status: Some(s), ..fold_fields(id, no_fields(), body)->Ok_0 },
            )
        }),
    ensures
        parse_item_spec(seq![marked_heading(heading, s)] + body2) == Ok::<ItemModel, ParseErrorModel>(
            ItemModel { status: s, ..parse_item_spec(seq![heading] + body)->Ok_0 },
        ),
{
    let b1 = seq![heading] + body;
    let b2 = seq![marked_heading(heading, s)] + body2;
    assert(b1[0] == heading && b1.drop_first() =~= body);
    assert(b2[0] == marked_heading(heading, s) && b2.drop_first() =~= body2);
    assert(heading_parts(heading) is Some);
    lemma_marked_heading_parts(heading, s);
}

/// Lines with a line that is no heading inserted after the heading of block `p`: the same
/// blocks, block `p` holding the inserted line after its heading.
proof fn lemma_inserted_line_blocks(
    lines: Seq<Seq<char>>,
    el: Seq<Seq<char>>,
    p: int,
    st: Seq<char>,
)
    requires
        el.len() == lines.len(),
        heading_indices(el) == heading_indices(lines),
        0 <= p < heading_indices(lines).len(),
        heading_indices(lines)[p] + 1 < block_end(lines, heading_indices(lines), p),
        heading_parts(st) is None,
        forall|q: int| 0 <= q < lines.len() && q != heading_indices(lines)[p] ==> #[trigger] el[q] == lines[q],
    ensures
        ({
            let starts = heading_indices(lines);
            let lo = starts[p];
            let hi = block_end(lines, starts, p);
            let nl = el.take(lo + 1) + seq![st] + el.skip(lo + 1);
            let ns = heading_indices(nl);
            &&& ns.len() == starts.len()
            &&& ns[0] == starts[0]
            &&& nl.take(starts[0]) == lines.take(starts[0])
            &&& forall|k: int| 0 <= k < starts.len() && k != p ==> #[trigger] item_block(nl, ns, k)
                == item_block(lines, starts, k)
            &&& item_block(nl, ns, p) == seq![el[lo]] + (seq![st] + lines.subrange(lo + 1, hi))
        }),
{
    let starts = heading_indices(lines);
    let lo = starts[p];
    let hi = block_end(lines, starts, p);
    lemma_heading_indices(lines);
    assert(hi <= lines.len()) by {
        if p + 1 < starts.len() {
            assert(starts[p + 1] < lines.len());
        }
    }
    let a = el.take(lo + 1);
    let b = el.skip(lo + 1);
    let nl = a + seq![st] + b;
    assert(el =~= a + b);
    assert((a + seq![st]).drop_last() =~= a);
    assert(heading_indices(a + seq![st]) == heading_indices(a));
    lemma_heading_indices_append(a, b);
    lemma_heading_indices_append(a + seq![st], b);
    lemma_heading_indices(a);
    lemma_heading_indices(b);
    let x = heading_indices(a);
    let y = heading_indices(b);
    let ns = heading_indices(nl);
    assert(starts == x + y.map_values(|i: int| i + a.len()));
    assert(ns == x + y.map_values(|i: int| i + (a + seq![st]).len()));
    assert(x.len() == p + 1) by {
        if p >= x.len() {
            assert(starts[p] == y[p - x.len()] + a.len());
        }
        if p + 1 < x.len() {
            assert(starts[p + 1] == x[p + 1]);
        }
    }
    assert forall|k: int| 0 <= k < starts.len() implies #[trigger] ns[k] == if k <= p {
        starts[k]
    } else {
        starts[k] + 1
    } by {
        if k > p {
            assert(ns[k] == y[k - x.len()] + lo + 2);
            assert(starts[k] == y[k - x.len()] + lo + 1);
        } else {
            assert(ns[k] == x[k]);
            assert(starts[k] == x[k]);
        }
    }
    assert(forall|k: int| 0 <= k < p ==> #[trigger] starts[k] < lo);
    assert forall|k: int| 0 <= k < starts.len() && k != p implies #[trigger] item_block(nl, ns, k)
        == item_block(lines, starts, k) by {
        if k < p {
            assert(starts[k + 1] <= lo);
            assert(ns[k + 1] == starts[k + 1]);
            assert forall|q: int| starts[k] <= q < starts[k + 1] implies nl[q] == lines[q] by {
                assert(nl[q] == a[q]);
            }
            assert(item_block(nl, ns, k) =~= item_block(lines, starts, k));
        } else {
            if k > p + 1 {
                assert(starts[p + 1] < starts[k]);
            }
            assert(starts[k] >= hi);
            if k + 1 < starts.len() {
                assert(ns[k + 1] == starts[k + 1] + 1);
            }
            assert forall|q: int| starts[k] <= q < lines.len() implies nl[q + 1] == lines[q] by {
                assert(nl[q + 1] == b[q - lo - 1]);
                assert(b[q - lo - 1] == el[q]);
            }
            assert(item_block(nl, ns, k) =~= item_block(lines, starts, k));
        }
    }
    if p + 1 < starts.len() {
        assert(ns[p + 1] == hi + 1);
    }
    let body = lines.subrange(lo + 1, hi);
    assert forall|q: int| 0 <= q < body.len() implies nl[lo + 2 + q] == #[trigger] body[q] by {
        assert(nl[lo + 2 + q] == b[q]);
    }
    assert(nl[lo] == a[lo]);
    assert(nl[lo + 1] == st);
    assert(item_block(nl, ns, p) =~= seq![el[lo]] + (seq![st] + lines.subrange(lo + 1, hi)));
    assert(nl.take(starts[0]) =~= lines.take(starts[0])) by {
        assert forall|q: int| 0 <= q < starts[0] implies nl[q] == lines[q] by {
            assert(nl[q] == a[q]);
        }
    }
}

/// The item blocks of a plan text after the status of its `p`-th block is set: the same
/// blocks, but for block `p`, whose heading is marked and whose `Status:` lines are those of
/// `s` (one is added after the heading when it had none).
#[verifier::rlimit(40)]
proof fn lemma_updated_blocks(raw: Seq<char>, p: int, s: PlanStatus)
    requires
        0 <= p < heading_indices(lines_of(raw)).len(),
        heading_indices(lines_of(raw))[p] + 1 < block_end(
            lines_of(raw),
            heading_indices(lines_of(raw)),
            p,
        ),
    ensures
        ({
            let lines = lines_of(raw);
            let starts = heading_indices(lines);
            let lo = starts[p];
            let hi = block_end(lines, starts, p);
            let body = lines.subrange(lo + 1, hi);
            let nl = lines_of(status_updated_text(raw, p, s));
            let ns = heading_indices(nl);
            &&& ns.len() == starts.len()
            &&& ns[0] == starts[0]
            &&& nl.take(starts[0]) == lines.take(starts[0])
            &&& forall|k: int| 0 <= k < starts.len() && k != p ==> #[trigger] item_block(nl, ns, k)
                == item_block(lines, starts, k)
            &&& item_block(lines, starts, p) == seq![lines[lo]] + body
            &&& item_block(nl, ns, p) == seq![marked_heading(lines[lo], s)] + if has_status_line(
                body,
            ) {
                status_replaced(body, s)
            } else {
                seq![status_field_text(s)] + body
            }
            &&& !has_status_line(body) ==> status_replaced(body, s) == body
        }),
{
    let lines = lines_of(raw);
    let starts = heading_indices(lines);
    let lo = starts[p];
    let hi = block_end(lines, starts, p);
    let body = lines.subrange(lo + 1, hi);
    let st = status_field_text(s);
    lemma_updated_lines(raw, p, s);
    lemma_heading_indices(lines);
    lemma_heading_indices_are_headings(lines);
    assert(hi <= lines.len()) by {
        if p + 1 < starts.len() {
            assert(starts[p + 1] < lines.len());
        }
    }
    let el = edited_lines(lines, lo, hi, s);
    let nl = lines_of(status_updated_text(raw, p, s));
    lemma_marked_heading_parts(lines[lo], s);
    let had_status = block_has_status(lines, lo, hi);
    assert(had_status == has_status_line(body)) by {
        if had_status {
            let q = choose|q: int| lo < q < hi && #[trigger] is_status_line(lines[q]);
            assert(body[q - lo - 1] == lines[q]);
        }
        if has_status_line(body) {
            let q = choose|q: int| 0 <= q < body.len() && #[trigger] is_status_line(body[q]);
            assert(body[q] == lines[q + lo + 1]);
            assert(is_status_line(lines[q + lo + 1]));
        }
    }
    assert forall|q: int| 0 <= q < lines.len() implies (heading_parts(#[trigger] el[q]) is Some) == (
    heading_parts(lines[q]) is Some) by {
        lemma_status_lines_not_headings(lines[q], s);
    }
    lemma_heading_indices_same(el, lines);
    assert(item_block(lines, starts, p) =~= seq![lines[lo]] + body);
    if had_status {
        assert(nl == el);
        assert(forall|k: int| 0 <= k < p ==> #[trigger] starts[k] < lo);
        assert forall|k: int| 0 <= k < starts.len() && k != p implies #[trigger] item_block(
            nl,
            starts,
            k,
        ) == item_block(lines, starts, k) by {
            if k < p {
                assert(starts[k + 1] <= lo);
            } else {
                if k > p + 1 {
                    assert(starts[p + 1] < starts[k]);
                }
                assert(starts[k] >= hi);
            }
            assert(item_block(nl, starts, k) =~= item_block(lines, starts, k));
        }
        assert(item_block(nl, starts, p) =~= seq![marked_heading(lines[lo], s)] + status_replaced(
            body,
            s,
        ));
        assert(nl.take(starts[0]) =~= lines.take(starts[0])) by {
            if p > 0 {
                assert(starts[0] < lo);
            }
        }
    } else {
        assert(status_replaced(body, s) =~= body) by {
            assert forall|q: int| 0 <= q < body.len() implies !is_status_line(#[trigger] body[q]) by {
                if is_status_line(body[q]) {
                    assert(has_status_line(body));
                }
            }
        }
        assert forall|q: int| 0 <= q < lines.len() && q != lo implies #[trigger] el[q] == lines[q] by {
            if lo < q < hi {
                assert(body[q - lo - 1] == lines[q]);
                if is_status_line(lines[q]) {
                    assert(has_status_line(body));
                }
            }
        }
        lemma_status_lines_not_headings(st, s);
        lemma_inserted_line_blocks(lines, el, p, st);
    }
}

/// The items a list of blocks reads as, block by block.
proof fn lemma_parse_blocks_items(l: Seq<Seq<char>>, st: Seq<int>, j: int)
    requires
        0 <= j <= st.len(),
        parse_blocks(l, st, j) is Ok,
    ensures
        parse_blocks(l, st, j)->Ok_0.len() == st.len() - j,
        forall|k: int|
            j <= k < st.len() ==> parse_item_spec(#[trigger] item_block(l, st, k)) == Ok::<
                ItemModel,
                ParseErrorModel,
            >(parse_blocks(l, st, j)->Ok_0[k - j]),
    decreases st.len() - j,
{
    if j < st.len() {
        lemma_parse_blocks_items(l, st, j + 1);
        let rest = parse_blocks(l, st, j + 1)->Ok_0;
        let x = parse_item_spec(item_block(l, st, j))->Ok_0;
        assert(parse_blocks(l, st, j)->Ok_0 == seq![x] + rest);
        assert forall|k: int| j < k < st.len() implies parse_item_spec(#[trigger] item_block(l, st, k))
            == Ok::<ItemModel, ParseErrorModel>((seq![x] + rest)[k - j]) by {
            assert((seq![x] + rest)[k - j] == rest[k - j - 1]);
        }
    }
}

/// Updating a status: the plan written by a status update (the checkbox and `Status:`
/// lines of the first item block whose heading names the id set in place) reads back as
/// the same preamble and the items read before, with the status of the item with that id
/// set.
pub proof fn lemma_read_after_status_update(raw: Seq<char>, id: u64, s: PlanStatus)
    requires
        parse_document_spec(raw) is Ok,
        block_with_id(lines_of(raw), heading_indices(lines_of(raw)), id, 0) is Some,
    ensures
        ({
            let m = parse_document_spec(raw)->Ok_0;
            let p = block_with_id(lines_of(raw), heading_indices(lines_of(raw)), id, 0)->0;
            parse_document_spec(status_updated_text(raw, p, s)) == Ok::<
                DocumentModel,
                ParseErrorModel,
            >(DocumentModel { preamble: m.preamble, items: with_status(m.items, id, s) })
        }),
{
    let m = parse_document_spec(raw)->Ok_0;
    let lines = lines_of(raw);
    let starts = heading_indices(lines);
    let p = block_with_id(lines, starts, id, 0)->0;
    lemma_block_with_id(lines, starts, id, 0);
    lemma_heading_indices(lines);
    let lo = starts[p];
    let hi = block_end(lines, starts, p);
    let blocks = parse_blocks(lines, starts, 0)->Ok_0;
    lemma_parse_blocks_items(lines, starts, 0);
    let x = blocks[p];
    let block = item_block(lines, starts, p);
    assert(parse_item_spec(block) == Ok::<ItemModel, ParseErrorModel>(x));
    assert(block =~= lines.subrange(lo, hi));
    if lo + 1 >= hi {
        assert(hi == lo + 1) by {
            if p + 1 < starts.len() {
                assert(starts[p] < starts[p + 1]);
            }
        }
        assert(block.drop_first() =~= Seq::<Seq<char>>::empty());
        assert(fold_fields(x.id, no_fields(), block.drop_first()) == Ok::<
            FieldsModel,
            ParseErrorModel,
        >(no_fields()));
        assert(false);
    }
    lemma_updated_blocks(raw, p, s);
    let body = lines.subrange(lo + 1, hi);
    let heading = lines[lo];
    assert(block == seq![heading] + body);
    assert(block.drop_first() =~= body);
    assert(x.id == id);
    let f = fold_fields(id, no_fields(), body)->Ok_0;
    let st = status_field_text(s);
    let body2 = if has_status_line(body) {
        status_replaced(body, s)
    } else {
        seq![st] + body
    };
    assert(FieldsModel { status: None, ..no_fields() } == no_fields());
    if has_status_line(body) {
        lemma_fold_status_replaced(id, no_fields(), None, body, s);
    } else {
        lemma_status_text_step(id, no_fields(), s);
        assert(FieldsModel { status: Some(s), in_deliverables: false, ..no_fields() } == FieldsModel {
            status: Some(s),
            ..no_fields()
        });
        assert(body2[0] == st);
        assert(body2.drop_first() =~= body);
        lemma_fold_status_replaced(id, no_fields(), Some(s), body, s);
    }
    assert(fold_fields(id, no_fields(), body2) == Ok::<FieldsModel, ParseErrorModel>(
        FieldsModel { status: Some(s), ..f },
    ));
    lemma_edited_block_item(heading, body, body2, s);
    let y = ItemModel { status: s, ..x };
    let nl = lines_of(status_updated_text(raw, p, s));
    let ns = heading_indices(nl);
    assert(item_block(nl, ns, p) == seq![marked_heading(heading, s)] + body2);
    lemma_parse_blocks_one_changed(lines, starts, nl, ns, p, y, 0);
    let blocks2 = blocks.update(p, y);
    lemma_parsed_document(raw);
    lemma_distinct_before_sorting(blocks);
    assert(blocks2 =~= with_status(blocks, id, s)) by {
        assert forall|q: int| 0 <= q < blocks.len() implies #[trigger] blocks2[q] == with_status(
            blocks,
            id,
            s,
        )[q] by {
            if q != p {
                if q < p {
                    assert(blocks[q].id != blocks[p].id);
                } else {
                    assert(blocks[p].id != blocks[q].id);
                }
            }
        }
    }
    lemma_sort_with_status(blocks, id, s);
    lemma_with_status_duplicate(m.items, id, s);
}

// ---------------------------------------------------------------------------
// The checkbox decides the status when no `Status:` line is given
// ---------------------------------------------------------------------------

/// Reading body lines none of which is a `Status:` line leaves the status as it was.
proof fn lemma_fold_keeps_status(id: u64, st: FieldsModel, body: Seq<Seq<char>>)
    requires
        fold_fields(id, st, body) is Ok,
        forall|q: int| 0 <= q < body.len() ==> !is_status_line(#[trigger] body[q]),
    ensures
        fold_fields(id, st, body)->Ok_0.status == st.status,
    decreases body.len(),
{
    if body.len() > 0 {
        let l = body[0];
        assert(!is_status_line(body[0]));
        lemma_other_line_step(id, st, st.status, l);
        let next = field_step(id, st, l)->Ok_0;
        assert forall|q: int| 0 <= q < body.drop_first().len() implies !is_status_line(
            #[trigger] body.drop_first()[q],
        ) by {
            assert(body.drop_first()[q] == body[q + 1]);
        }
        lemma_fold_keeps_status(id, next, body.drop_first());
    }
}

/// An item block with no `Status:` line reads with the status its heading's checkbox
/// shows: completed for `[x]` or `[X]`, planned otherwise.
pub proof fn lemma_checkbox_decides_status(block: Seq<Seq<char>>)
    requires
        parse_item_spec(block) is Ok,
        forall|q: int| 1 <= q < block.len() ==> !is_status_line(#[trigger] block[q]),
    ensures
        block.len() > 0,
        heading_parts(block[0]) is Some,
        ({
            let (d, m, rest) = heading_parts(block[0])->0;
            parse_item_spec(block)->Ok_0.status == if m == 'x' || m == 'X' {
                PlanStatus::Completed
            } else {
                PlanStatus::Planned
            }
        }),
{
    let id = parse_item_spec(block)->Ok_0.id;
    let body = block.drop_first();
    assert forall|q: int| 0 <= q < body.len() implies !is_status_line(#[trigger] body[q]) by {
        assert(body[q] == block[q + 1]);
    }
    assert(fold_fields(id, no_fields(), body) is Ok);
    lemma_fold_keeps_status(id, no_fields(), body);
}

} // verus!
