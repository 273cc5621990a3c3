//! Fixtures of SQL: a header of comments that says what is expected, and a statement.

use vstd::prelude::*;
use vstd::string::StringExecFns;

use crate::diagnostic;
use crate::text::{
    self, chars_of, decimal_text, is_at, join, same, slice_text, split_lines, strip_trailing, trim,
    trim_start,
};

verus! {

/// Whether a fixture is to be accepted.
#[derive(Debug, Clone, Copy, PartialEq, Eq, Structural)]
pub enum Expectation {
    Accept,
    Reject,
}

/// What the header of a fixture says.
#[derive(Debug, PartialEq, Eq)]
pub struct FixtureHeader {
    /// The rule of the grammar that the fixture is of.
    pub production: String,
    pub expectation: Expectation,
    /// The rule of the linter that it breaks.
    pub rule: Option<String>,
    /// The fixture that a fix makes of it.
    pub fix: Option<String>,
    /// The fixture that it is a fix of.
    pub fixes: Option<String>,
}

/// What is wrong with a header.
#[derive(Debug)]
pub struct ParseError {
    pub line: usize,
    pub message: String,
}

impl ParseError {
    /// The error as one line.
    pub fn describe(&self) -> (r: String)
        ensures
            r@ == "line "@ + text::decimal(self.line as nat) + ": "@ + self.message@,
    {
        let mut out = "line ".to_owned();
        out.append(decimal_text(self.line as u64).as_str());
        out.append(": ");
        out.append(self.message.as_str());
        out
    }
}

/// What was read of a header so far.
pub ghost struct Draft {
    pub production: Option<Seq<char>>,
    pub expectation: Option<Expectation>,
    pub rule: Option<Seq<char>>,
    pub fix: Option<Seq<char>>,
    pub fixes: Option<Seq<char>>,
}

/// Where the line that begins at `at` ends, its line break included.
pub open spec fn line_end(s: Seq<char>, at: int) -> int
    decreases s.len() - at,
{
    if !(0 <= at < s.len()) {
        s.len() as int
    } else if s[at] == '\n' {
        at + 1
    } else {
        line_end(s, at + 1)
    }
}

/// A text without any run of `c` before it.
pub open spec fn without_leading(s: Seq<char>, c: char) -> Seq<char>
    decreases s.len(),
{
    if s.len() > 0 && s[0] == c {
        without_leading(s.skip(1), c)
    } else {
        s
    }
}

/// The first place, from `at` on, where `c` stands.
pub open spec fn place_of(s: Seq<char>, c: char, at: int) -> Option<int>
    decreases s.len() - at,
{
    if !(0 <= at < s.len()) {
        None
    } else if s[at] == c {
        Some(at)
    } else {
        place_of(s, c, at + 1)
    }
}

/// A line without its line break and without the white space before it.
pub open spec fn bare_line(line: Seq<char>) -> Seq<char> {
    text::trimmed_start(text::without_trailing(text::without_trailing(line, '\n'), '\r'))
}

/// The key and the value of a comment; `None` where it has no colon.
pub open spec fn key_value(comment: Seq<char>) -> Option<(Seq<char>, Seq<char>)> {
    let body = text::trimmed_start(without_leading(comment, '-'));
    match place_of(body, ':', 0) {
        Some(at) => Some((text::trimmed(body.take(at)), text::trimmed(body.skip(at + 1)))),
        None => None,
    }
}

/// What was read of a header after one key more; an error where the key is unknown, or its value
/// is none that it can have.
pub open spec fn with_key(d: Draft, key: Seq<char>, value: Seq<char>) -> Result<Draft, Seq<char>> {
    if key == "production"@ {
        Ok(Draft { production: Some(value), ..d })
    } else if key == "expectation"@ {
        if value == "accept"@ {
            Ok(Draft { expectation: Some(Expectation::Accept), ..d })
        } else if value == "reject"@ {
            Ok(Draft { expectation: Some(Expectation::Reject), ..d })
        } else {
            Err("expectation must be 'accept' or 'reject', got '"@ + value + "'"@)
        }
    } else if key == "rule"@ {
        Ok(Draft { rule: Some(value), ..d })
    } else if key == "fix"@ {
        Ok(Draft { fix: Some(value), ..d })
    } else if key == "fixes"@ {
        Ok(Draft { fixes: Some(value), ..d })
    } else {
        Err("unknown header key '"@ + key + "'"@)
    }
}

/// What the comments from `at` on say, and where the statement begins: at the first line that is
/// neither blank nor a comment. A comment without a colon says nothing.
pub open spec fn header_from(s: Seq<char>, at: int, line: nat, d: Draft) -> Result<
    (Draft, int),
    (nat, Seq<char>),
>
    decreases s.len() - at,
    via header_from_decreases
{
    if !(0 <= at < s.len()) {
        Ok((d, s.len() as int))
    } else {
        let end = line_end(s, at);
        let bare = bare_line(s.subrange(at, end));
        if bare.len() == 0 {
            header_from(s, end, line + 1, d)
        } else if !text::begins(bare, "--"@) {
            Ok((d, at))
        } else {
            match key_value(bare) {
                None => header_from(s, end, line + 1, d),
                Some((key, value)) => match with_key(d, key, value) {
                    Ok(next) => header_from(s, end, line + 1, next),
                    Err(m) => Err((line, m)),
                },
            }
        }
    }
}

#[via_fn]
proof fn header_from_decreases(s: Seq<char>, at: int, line: nat, d: Draft) {
    if 0 <= at < s.len() {
        lemma_line_end(s, at);
    }
}

/// A line is not empty and ends within its text.
pub proof fn lemma_line_end(s: Seq<char>, at: int)
    requires
        0 <= at <= s.len(),
    ensures
        at <= line_end(s, at) <= s.len(),
        at < s.len() ==> at < line_end(s, at),
    decreases s.len() - at,
{
    if at < s.len() && s[at] != '\n' {
        lemma_line_end(s, at + 1);
    }
}

/// What the header of a fixture says.
pub ghost struct HeaderModel {
    pub production: Seq<char>,
    pub expectation: Expectation,
    pub rule: Option<Seq<char>>,
    pub fix: Option<Seq<char>>,
    pub fixes: Option<Seq<char>>,
}

/// An optional text as its model.
pub open spec fn text_of(s: Option<String>) -> Option<Seq<char>> {
    match s {
        Some(t) => Some(t@),
        None => None,
    }
}

impl View for FixtureHeader {
    type V = HeaderModel;

    open spec fn view(&self) -> HeaderModel {
        HeaderModel {
            production: self.production@,
            expectation: self.expectation,
            rule: text_of(self.rule),
            fix: text_of(self.fix),
            fixes: text_of(self.fixes),
        }
    }
}

/// The header of a fixture, and its statement; an error with its line where the header is none.
pub open spec fn header_of(s: Seq<char>) -> Result<(HeaderModel, Seq<char>), (nat, Seq<char>)> {
    let empty = Draft {
        production: None,
        expectation: None,
        rule: None,
        fix: None,
        fixes: None,
    };
    match header_from(s, 0, 1, empty) {
        Err(e) => Err(e),
        Ok((d, at)) => match (d.production, d.expectation) {
            (Some(production), Some(expectation)) => Ok(
                (
                    HeaderModel {
                        production,
                        expectation,
                        rule: d.rule,
                        fix: d.fix,
                        fixes: d.fixes,
                    },
                    s.skip(at),
                ),
            ),
            (None, _) => Err((1, "missing required key 'production'"@)),
            (Some(_), None) => Err((1, "missing required key 'expectation'"@)),
        },
    }
}

struct DraftHeader {
    production: Option<String>,
    expectation: Option<Expectation>,
    rule: Option<String>,
    fix: Option<String>,
    fixes: Option<String>,
}

spec fn draft_view(d: DraftHeader) -> Draft {
    Draft {
        production: text_of(d.production),
        expectation: d.expectation,
        rule: text_of(d.rule),
        fix: text_of(d.fix),
        fixes: text_of(d.fixes),
    }
}

fn find_line_end(chars: &Vec<char>, at: usize) -> (r: usize)
    requires
        at < chars@.len(),
    ensures
        r == line_end(chars@, at as int),
        at < r <= chars@.len(),
{
    let size: usize = chars.len();
    let mut i: usize = at;
    while i < size && chars[i] != '\n'
        invariant
            at <= i <= size == chars@.len(),
            line_end(chars@, at as int) == line_end(chars@, i as int),
        decreases size - i,
    {
        i += 1;
    }
    proof {
        lemma_line_end(chars@, at as int);
    }
    if i < size {
        i + 1
    } else {
        size
    }
}

fn strip_leading(s: &str, c: char) -> (r: String)
    ensures
        r@ == without_leading(s@, c),
{
    let chars = chars_of(s);
    let mut from: usize = 0;
    proof {
        assert(s@.skip(0) =~= s@);
    }
    while from < chars.len() && chars[from] == c
        invariant
            from <= chars@.len(),
            chars@ == s@,
            without_leading(s@, c) == without_leading(s@.skip(from as int), c),
        decreases chars@.len() - from,
    {
        proof {
            assert(s@.skip(from as int).skip(1) =~= s@.skip(from + 1));
        }
        from += 1;
    }
    proof {
        assert(chars@.subrange(from as int, chars@.len() as int) =~= s@.skip(from as int));
    }
    slice_text(&chars, from, chars.len())
}

fn read_key_value(comment: &str) -> (r: Option<(String, String)>)
    ensures
        match (r, key_value(comment@)) {
            (Some((k, v)), Some((key, value))) => k@ == key && v@ == value,
            (None, None) => true,
            _ => false,
        },
{
    let body = trim_start(strip_leading(comment, '-').as_str());
    let chars = chars_of(body.as_str());
    let size: usize = chars.len();
    let mut at: usize = 0;
    while at < size && chars[at] != ':'
        invariant
            at <= size == chars@.len(),
            chars@ == body@,
            place_of(body@, ':', 0) == place_of(body@, ':', at as int),
        decreases size - at,
    {
        at += 1;
    }
    if at == size {
        return None;
    }
    proof {
        assert(chars@.subrange(0, at as int) =~= body@.take(at as int));
        assert(chars@.subrange(at + 1, size as int) =~= body@.skip(at + 1));
    }
    let key = slice_text(&chars, 0, at);
    let value = slice_text(&chars, at + 1, size);
    Some((trim(key.as_str()), trim(value.as_str())))
}

fn quoted(head: &str, value: &str) -> (r: String)
    ensures
        r@ == head@ + value@ + "'"@,
{
    let mut out = head.to_owned();
    out.append(value);
    out.append("'");
    out
}

fn set_key(d: &mut DraftHeader, key: &str, value: String) -> (r: Result<(), String>)
    ensures
        match (r, with_key(draft_view(*old(d)), key@, value@)) {
            (Ok(_), Ok(next)) => draft_view(*final(d)) == next,
            (Err(e), Err(m)) => e@ == m,
            _ => false,
        },
{
    if same(key, "production") {
        d.production = Some(value);
    } else if same(key, "expectation") {
        if same(value.as_str(), "accept") {
            d.expectation = Some(Expectation::Accept);
        } else if same(value.as_str(), "reject") {
            d.expectation = Some(Expectation::Reject);
        } else {
            return Err(quoted("expectation must be 'accept' or 'reject', got '", value.as_str()));
        }
    } else if same(key, "rule") {
        d.rule = Some(value);
    } else if same(key, "fix") {
        d.fix = Some(value);
    } else if same(key, "fixes") {
        d.fixes = Some(value);
    } else {
        return Err(quoted("unknown header key '", key));
    }
    Ok(())
}

fn starts_comment(bare: &str) -> (r: bool)
    ensures
        r == text::begins(bare@, "--"@),
{
    let chars = chars_of(bare);
    let dashes = chars_of("--");
    is_at(&chars, &dashes, 0)
}

/// The header of a fixture, and its statement.
#[verifier::loop_isolation(false)]
pub fn parse_header(input: &str) -> (r: Result<(FixtureHeader, String), ParseError>)
    ensures
        match (r, header_of(input@)) {
            (Ok((h, body)), Ok((m, text))) => h@ == m && body@ == text,
            (Err(e), Err((line, message))) => e.line == line && e.message@ == message,
            _ => false,
        },
{
    let chars = chars_of(input);
    let size: usize = chars.len();
    let mut d = DraftHeader {
        production: None,
        expectation: None,
        rule: None,
        fix: None,
        fixes: None,
    };
    let ghost begin = header_from(input@, 0, 1, draft_view(d));
    let mut at: usize = 0;
    let mut line: usize = 0;
    let mut ended = false;
    while at < size && !ended
        invariant
            line <= at <= size == chars@.len(),
            chars@ == input@,
            begin == if ended {
                Ok::<(Draft, int), (nat, Seq<char>)>((draft_view(d), at as int))
            } else {
                header_from(input@, at as int, (line + 1) as nat, draft_view(d))
            },
        decreases size - at, if ended {
            0int
        } else {
            1int
        },
    {
        let end: usize = find_line_end(&chars, at);
        let text = slice_text(&chars, at, end);
        let plain = strip_trailing(strip_trailing(text.as_str(), '\n').as_str(), '\r');
        let bare = trim_start(plain.as_str());
        if bare.as_str().is_empty() {
            at = end;
            line += 1;
        } else if !starts_comment(bare.as_str()) {
            ended = true;
        } else {
            if let Some((key, value)) = read_key_value(bare.as_str()) {
                match set_key(&mut d, key.as_str(), value) {
                    Ok(_) => {},
                    Err(message) => {
                        return Err(ParseError { line: line + 1, message });
                    },
                }
            }
            at = end;
            line += 1;
        }
    }
    proof {
        assert(chars@.subrange(at as int, size as int) =~= input@.skip(at as int));
    }
    let body = slice_text(&chars, at, size);
    let DraftHeader { production, expectation, rule, fix, fixes } = d;
    match production {
        None => Err(
            ParseError { line: 1, message: "missing required key 'production'".to_owned() },
        ),
        Some(production) => match expectation {
            None => Err(
                ParseError { line: 1, message: "missing required key 'expectation'".to_owned() },
            ),
            Some(expectation) => Ok(
                (FixtureHeader { production, expectation, rule, fix, fixes }, body),
            ),
        },
    }
}

/// The upper-case letters that a letter becomes.
pub uninterp spec fn capital(c: char) -> Seq<char>;

/// `char::to_uppercase`. Of an ASCII character it is that character's upper case.
#[verifier::external_body]
fn capitalize(c: char) -> (r: String)
    ensures
        r@ == capital(c),
        (c as u32) < 128 ==> r@ == seq![text::upper(c)],
{
    c.to_uppercase().collect()
}

/// Words with underscores between them as one name of capitalized words.
pub open spec fn pascal(s: Seq<char>) -> Seq<char>
    decreases s.len(),
{
    if s.len() == 0 {
        seq![]
    } else {
        let before = pascal(s.drop_last());
        let c = s.last();
        if c == '_' {
            before
        } else if s.len() == 1 || s[s.len() - 2] == '_' {
            before + capital(c)
        } else {
            before.push(c)
        }
    }
}

/// Words with underscores between them, as a rule of the linter is named in JSON, as one name of
/// capitalized words, as it is named in the program.
pub fn snake_to_pascal(s: &str) -> (r: String)
    ensures
        r@ == pascal(s@),
{
    let chars = chars_of(s);
    let mut out = String::new();
    let mut i: usize = 0;
    proof {
        assert(s@.take(0) =~= seq![]);
        assert(out@ =~= seq![]);
    }
    while i < chars.len()
        invariant
            i <= chars@.len(),
            chars@ == s@,
            out@ == pascal(s@.take(i as int)),
        decreases chars@.len() - i,
    {
        proof {
            let next = s@.take(i + 1);
            assert(next.drop_last() =~= s@.take(i as int));
            assert(next.last() == chars@[i as int]);
            if i > 0 {
                assert(next[next.len() - 2] == chars@[i - 1]);
            }
        }
        let c = chars[i];
        if c != '_' {
            if i == 0 || chars[i - 1] == '_' {
                out.append(capitalize(c).as_str());
            } else {
                out.push(c);
            }
        }
        i += 1;
    }
    proof {
        assert(s@.take(i as int) =~= s@);
    }
    out
}

/// The lines that are no command of `psql`.
pub open spec fn sql_lines(ls: Seq<Seq<char>>) -> Seq<Seq<char>>
    decreases ls.len(),
{
    if ls.len() == 0 {
        seq![]
    } else {
        let before = sql_lines(ls.drop_last());
        let bare = text::trimmed_start(ls.last());
        if bare.len() > 0 && bare[0] == '\\' {
            before
        } else {
            before.push(ls.last())
        }
    }
}

/// A script without the commands of `psql`, which stand on lines of their own that begin with a
/// backslash.
pub fn strip_psql_metacommands(input: &str) -> (r: String)
    ensures
        r@ == text::joined(sql_lines(text::lines(input@)), "\n"@),
{
    let ls = split_lines(input);
    let ghost vs = text::views(ls@);
    let mut out: Vec<String> = Vec::new();
    proof {
        assert(vs.take(0) =~= seq![]);
        assert(text::views(out@) =~= seq![]);
    }
    for line in it: ls
        invariant
            vs == text::views(it.seq()),
            text::views(out@) == sql_lines(vs.take(it.index() as int)),
    {
        proof {
            let i = it.index() as int;
            assert(vs.take(i + 1).drop_last() =~= vs.take(i));
            assert(vs.take(i + 1).last() == line@);
        }
        let bare = chars_of(trim_start(line.as_str()).as_str());
        let command = bare.len() > 0 && bare[0] == '\\';
        if !command {
            let ghost held = out@;
            out.push(line);
            proof {
                assert(text::views(out@) =~= text::views(held).push(line@));
            }
        }
    }
    proof {
        assert(vs.take(vs.len() as int) =~= vs);
    }
    join(&out, "\n")
}

/// Whether the letters of a name are upper-cased as ASCII letters are.
pub open spec fn plain_capitals(name: Seq<char>) -> bool {
    forall|i: int|
        0 <= i < name.len() ==> capital(text::lower(#[trigger] name[i])) == seq![
            text::upper(text::lower(name[i])),
        ]
}

/// Whether a name is made of capitalized words of ASCII letters and digits.
pub open spec fn is_pascal(name: Seq<char>) -> bool {
    &&& name.len() > 0 ==> 'A' <= name[0] <= 'Z'
    &&& forall|i: int|
        0 <= i < name.len() ==> 'A' <= #[trigger] name[i] <= 'Z' || 'a' <= name[i] <= 'z' || '0'
            <= name[i] <= '9'
}

/// A rule's name in JSON gives back its name in the program.
pub proof fn law_wire_names_can_be_read_back(name: Seq<char>)
    requires
        is_pascal(name),
        plain_capitals(name),
    ensures
        pascal(diagnostic::snake(name)) == name,
        name.len() > 0 ==> diagnostic::snake(name).len() > 0 && diagnostic::snake(name).last()
            != '_',
    decreases name.len(),
{
    if name.len() > 0 {
        let front = name.drop_last();
        assert forall|i: int| 0 <= i < front.len() implies capital(
            text::lower(#[trigger] front[i]),
        ) == seq![text::upper(text::lower(front[i]))] by {
            assert(front[i] == name[i]);
        }
        assert forall|i: int| 0 <= i < front.len() implies 'A' <= #[trigger] front[i] <= 'Z' || 'a'
            <= front[i] <= 'z' || '0' <= front[i] <= '9' by {
            assert(front[i] == name[i]);
        }
        if front.len() > 0 {
            assert(front[0] == name[0]);
        }
        law_wire_names_can_be_read_back(front);
        let c = name.last();
        let l = text::lower(c);
        assert(name[name.len() - 1] == c);
        let before = diagnostic::snake(front);
        let after = diagnostic::snake(name);
        if name.len() > 1 && 'A' <= c <= 'Z' {
            let spaced = before.push('_');
            assert(spaced.drop_last() =~= before);
            assert(pascal(spaced) == front);
            assert(after.drop_last() =~= spaced);
            assert(after[after.len() - 2] == '_');
            assert(text::upper(l) == c);
            assert(pascal(after) == front + seq![c]);
            assert(front + seq![c] =~= name);
        } else {
            assert(after.drop_last() =~= before);
            if name.len() == 1 {
                assert(before =~= seq![]);
                assert(text::upper(l) == c);
                assert(pascal(after) == pascal(before) + seq![c]);
                assert(pascal(before) + seq![c] =~= name);
            } else {
                assert(after[after.len() - 2] == before.last());
                assert(l == c);
                assert(front.push(c) =~= name);
            }
        }
    }
}

} // verus!
