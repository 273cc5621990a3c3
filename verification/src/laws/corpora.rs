//! What a corpus is compared by: headers, labels, lines and counts.

use vstd::prelude::*;

use crate::corpus::{self, Expectation};
use crate::diff::{self, Category};
use crate::grammar::model;
use crate::text;

verus! {

/// The words of a header differ.
proof fn lemma_names()
    ensures
        "accept"@.len() == 6,
        "expectation"@.len() == 11,
        "fix"@.len() == 3,
        "fixes"@.len() == 5,
        "production"@.len() == 10,
        "reject"@.len() == 6,
        "rule"@.len() == 4,
        "accept"@ != "reject"@,
{
    reveal_strlit("accept");
    reveal_strlit("expectation");
    reveal_strlit("fix");
    reveal_strlit("fixes");
    reveal_strlit("production");
    reveal_strlit("reject");
    reveal_strlit("rule");
    assert("accept"@[0] != "reject"@[0]);
}

/// The linter and the grammar agree where both accept a statement or neither does; else the linter is
/// too strict where the grammar accepts it, and too lenient where it does not.
pub proof fn law_categories()
    ensures
        diff::category_of(Some(true), true) == Category::Agreement,
        diff::category_of(Some(false), false) == Category::Agreement,
        diff::category_of(Some(true), false) == Category::LintTooStrict,
        diff::category_of(Some(false), true) == Category::LintTooLenient,
        forall|passes: bool| #[trigger] diff::category_of(None, passes) == Category::ParseError,
{
}

/// The statements that are told of are those on which the two differ, in their order.
pub proof fn law_differences_are_told_in_order(
    rules: Seq<(Seq<char>, model::RuleModel)>,
    labels: Seq<(usize, Seq<char>)>,
    parts: Seq<(usize, Seq<char>)>,
    totals: diff::Totals,
)
    ensures
        diff::compared_all(rules, labels, parts, totals).entries == parts.map_values(
            |p: (usize, Seq<char>)| diff::compared(rules, labels, p),
        ).filter(|e: diff::EntryModel| e.category != Category::Agreement),
    decreases parts.len(),
{
    reveal(Seq::filter);
    let all = parts.map_values(|p: (usize, Seq<char>)| diff::compared(rules, labels, p));
    if parts.len() > 0 {
        law_differences_are_told_in_order(rules, labels, parts.drop_last(), totals);
        assert(all.drop_last() =~= parts.drop_last().map_values(
            |p: (usize, Seq<char>)| diff::compared(rules, labels, p),
        ));
    }
}

/// The counts of a file are the numbers of its statements of each category.
pub proof fn law_categories_are_counted(
    rules: Seq<(Seq<char>, model::RuleModel)>,
    labels: Seq<(usize, Seq<char>)>,
    parts: Seq<(usize, Seq<char>)>,
    totals: diff::Totals,
)
    requires
        parts.len() <= usize::MAX,
    ensures
        ({
            let s = diff::compared_all(rules, labels, parts, totals).summary;
            &&& s.agreement == number_of(rules, labels, parts, Category::Agreement)
            &&& s.lint_too_strict == number_of(rules, labels, parts, Category::LintTooStrict)
            &&& s.lint_too_lenient == number_of(rules, labels, parts, Category::LintTooLenient)
            &&& s.parse_error == number_of(rules, labels, parts, Category::ParseError)
            &&& s.statements == parts.len()
        }),
        number_of(rules, labels, parts, Category::Agreement) <= parts.len(),
        number_of(rules, labels, parts, Category::LintTooStrict) <= parts.len(),
        number_of(rules, labels, parts, Category::LintTooLenient) <= parts.len(),
        number_of(rules, labels, parts, Category::ParseError) <= parts.len(),
    decreases parts.len(),
{
    reveal(Seq::filter);
    if parts.len() > 0 {
        law_categories_are_counted(rules, labels, parts.drop_last(), totals);
    }
}

/// How many statements are of a category.
pub open spec fn number_of(
    rules: Seq<(Seq<char>, model::RuleModel)>,
    labels: Seq<(usize, Seq<char>)>,
    parts: Seq<(usize, Seq<char>)>,
    category: Category,
) -> nat {
    parts.filter(
        |p: (usize, Seq<char>)| diff::compared(rules, labels, p).category == category,
    ).len()
}

/// Each key of a header sets its own field and no other.
pub proof fn law_keys_set_their_fields(d: corpus::Draft, value: Seq<char>)
    ensures
        corpus::with_key(d, "production"@, value) == Ok::<corpus::Draft, Seq<char>>(
            (corpus::Draft { production: Some(value), ..d }),
        ),
        corpus::with_key(d, "rule"@, value) == Ok::<corpus::Draft, Seq<char>>(
            (corpus::Draft { rule: Some(value), ..d }),
        ),
        corpus::with_key(d, "fix"@, value) == Ok::<corpus::Draft, Seq<char>>(
            (corpus::Draft { fix: Some(value), ..d }),
        ),
        corpus::with_key(d, "fixes"@, value) == Ok::<corpus::Draft, Seq<char>>(
            (corpus::Draft { fixes: Some(value), ..d }),
        ),
        corpus::with_key(d, "expectation"@, "accept"@) == Ok::<corpus::Draft, Seq<char>>(
            (corpus::Draft { expectation: Some(Expectation::Accept), ..d }),
        ),
        corpus::with_key(d, "expectation"@, "reject"@) == Ok::<corpus::Draft, Seq<char>>(
            (corpus::Draft { expectation: Some(Expectation::Reject), ..d }),
        ),
{
    lemma_names();
}

/// Any other key is refused, and so is any other expectation.
pub proof fn law_other_keys_are_refused(d: corpus::Draft, key: Seq<char>, value: Seq<char>)
    ensures
        key != "production"@ && key != "expectation"@ && key != "rule"@ && key != "fix"@ && key
            != "fixes"@ ==> corpus::with_key(d, key, value) is Err,
        value != "accept"@ && value != "reject"@ ==> corpus::with_key(
            d,
            "expectation"@,
            value,
        ) is Err,
{
    lemma_names();
}

/// A line of a header is its key, a colon and its value, behind two dashes.
pub proof fn law_header_lines_are_read(key: Seq<char>, value: Seq<char>)
    requires
        key.len() > 0,
        value.len() > 0,
        forall|i: int| 0 <= i < key.len() ==> (#[trigger] key[i]) != ':',
        !text::white(key[0]) && !text::white(key.last()),
        !text::white(value[0]) && !text::white(value.last()),
    ensures
        corpus::key_value(seq!['-', '-', ' '] + key + seq![':', ' '] + value) == Some((key, value)),
{
    let line = seq!['-', '-', ' '] + key + seq![':', ' '] + value;
    let body = key + seq![':', ' '] + value;
    let one = seq!['-', ' '] + body;
    let two = seq![' '] + body;
    assert(line.skip(1) =~= one);
    assert(one.skip(1) =~= two);
    assert(two.skip(1) =~= body);
    assert(line[0] == '-' && one[0] == '-' && two[0] == ' ');
    assert(corpus::without_leading(line, '-') == corpus::without_leading(one, '-'));
    assert(corpus::without_leading(one, '-') == corpus::without_leading(two, '-'));
    assert(corpus::without_leading(two, '-') == two);
    assert(text::white(' '));
    assert(body[0] == key[0]);
    assert(text::trimmed_start(two) == text::trimmed_start(body));
    assert(text::trimmed_start(body) == body);
    lemma_place(key, seq![' '] + value, 0);
    assert(key + seq![':'] + (seq![' '] + value) =~= body);
    let at = key.len() as int;
    assert(body.take(at) =~= key);
    let tail = body.skip(at + 1);
    assert(tail =~= seq![' '] + value);
    assert(tail.skip(1) =~= value);
    assert(text::trimmed_start(tail) == text::trimmed_start(value));
    assert(text::trimmed_start(value) == value);
    assert(text::trimmed_end(value) == value);
    assert(text::trimmed_start(key) == key);
    assert(text::trimmed_end(key) == key);
}

proof fn lemma_place(a: Seq<char>, b: Seq<char>, at: int)
    requires
        0 <= at <= a.len(),
        forall|i: int| 0 <= i < a.len() ==> (#[trigger] a[i]) != ':',
    ensures
        corpus::place_of(a + seq![':'] + b, ':', at) == Some(a.len() as int),
    decreases a.len() - at,
{
    let s = a + seq![':'] + b;
    if at < a.len() {
        assert(s[at] == a[at]);
        lemma_place(a, b, at + 1);
    } else {
        assert(s[at] == ':');
    }
}

/// The lines of SQL are those that do not begin with a backslash behind their white space, in order.
pub proof fn law_commands_are_taken_out(ls: Seq<Seq<char>>)
    ensures
        corpus::sql_lines(ls) == ls.filter(|l: Seq<char>| !is_command(l)),
    decreases ls.len(),
{
    reveal(Seq::filter);
    if ls.len() > 0 {
        law_commands_are_taken_out(ls.drop_last());
    }
}

/// Whether a line is a command: its first character that is no white space is a backslash.
pub open spec fn is_command(line: Seq<char>) -> bool {
    text::trimmed_start(line).len() > 0 && text::trimmed_start(line)[0] == '\\'
}

/// A statement has the last label that stands at its line or before it.
pub proof fn law_the_last_label_counts(labels: Seq<(usize, Seq<char>)>, line: usize, i: int)
    requires
        0 <= i < labels.len(),
        labels[i].0 <= line,
        forall|j: int| i < j < labels.len() ==> (#[trigger] labels[j]).0 > line,
    ensures
        diff::label_at(labels, line) == Some(labels[i].1),
    decreases labels.len(),
{
    if i < labels.len() - 1 {
        assert(labels[labels.len() - 1].0 > line);
        let front = labels.drop_last();
        assert forall|j: int| i < j < front.len() implies (#[trigger] front[j]).0 > line by {
            assert(front[j] == labels[j]);
        }
        law_the_last_label_counts(front, line, i);
    }
}

/// A label is what stands behind `-- label:`.
pub proof fn law_labels_are_read(label: Seq<char>)
    requires
        label.len() > 0,
        !text::white(label[0]),
        !text::white(label.last()),
    ensures
        diff::label_in("-- label: "@ + label) == Some(label),
{
    reveal_strlit("-- label: ");
    reveal_strlit("--");
    reveal_strlit("label:");
    let line = "-- label: "@ + label;
    assert(line[0] == '-');
    assert(text::trimmed_start(line) == line);
    assert(line.subrange(0, 2) =~= "--"@);
    let rest = line.skip(2);
    let body = rest.skip(1);
    assert(rest[0] == ' ');
    assert(text::white(' '));
    assert(body[0] == 'l');
    assert(text::trimmed_start(rest) == text::trimmed_start(body));
    assert(text::trimmed_start(body) == body);
    assert(body.subrange(0, 6) =~= "label:"@);
    let tail = body.skip(6);
    assert(tail =~= seq![' '] + label);
    assert(tail.skip(1) =~= label);
    assert(text::trimmed_start(tail) == text::trimmed_start(label));
    assert(text::trimmed_start(label) == label);
    assert(text::trimmed_end(label) == label);
}

/// The lines of a text are what its line breaks part; a carriage return before a line break belongs
/// to it.
pub proof fn law_lines_are_parted_by_breaks(a: Seq<char>, b: Seq<char>)
    requires
        forall|i: int| 0 <= i < b.len() ==> (#[trigger] b[i]) != '\n',
        b.len() == 0 || b.last() != '\r',
        a.len() == 0 || a.last() == '\n',
    ensures
        text::lines(a + b.push('\n')) == text::lines(a).push(b),
        text::lines(a + b.push('\r').push('\n')) == text::lines(a).push(b),
        b.len() > 0 ==> text::lines(a + b) == text::lines(a).push(b),
{
    lemma_line(a, b);
    let s = a + b.push('\n');
    assert(s.drop_last() =~= a + b);
    let c = b.push('\r');
    assert forall|i: int| 0 <= i < c.len() implies (#[trigger] c[i]) != '\n' by {
        if i < b.len() {
            assert(c[i] == b[i]);
        }
    }
    lemma_line(a, c);
    let t = a + c.push('\n');
    assert(t.drop_last() =~= a + c);
    assert(c.drop_last() =~= b);
}

proof fn lemma_line(a: Seq<char>, b: Seq<char>)
    requires
        forall|i: int| 0 <= i < b.len() ==> (#[trigger] b[i]) != '\n',
        a.len() == 0 || a.last() == '\n',
    ensures
        text::line_scan(a + b) == (text::lines(a), b),
    decreases b.len(),
{
    if b.len() == 0 {
        assert(a + b =~= a);
        assert(text::line_scan(a).1 =~= b);
    } else {
        let front = b.drop_last();
        assert forall|i: int| 0 <= i < front.len() implies (#[trigger] front[i]) != '\n' by {
            assert(front[i] == b[i]);
        }
        lemma_line(a, front);
        assert((a + b).drop_last() =~= a + front);
        assert((a + b).last() == b[b.len() - 1]);
        assert(front.push(b.last()) =~= b);
    }
}

} // verus!
