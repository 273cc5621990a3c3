//! The grammar of DSQL: which statements it accepts.

use serde_json::Value;
use vstd::prelude::*;
use vstd::string::StringExecFns;

use crate::grammar::model::{
    all_tokens, contains_rule, entries, GrammarFile, GrammarToken, Production,
    TokenType,
};
use crate::grammar::names::place;
use crate::grammar::recognizer::{charclass_terminal_name, terminal_input_string, GrammarRecognizer};
use crate::grammar::tokenize::{map_token, Terminal};
use crate::shapes::field;
use crate::split;
use crate::syntax::{self, as_text, Dialect, Tree};
use crate::text::{self, chars_of, is_at, same};
use crate::token;

pub mod model;
pub mod names;
pub mod recognizer;
pub mod tokenize;

verus! {

/// The rules that statements are recognized from, in the order in which they are tried. The root
/// that a grammar declares is no rule of its own.
pub open spec fn top_level() -> Seq<Seq<char>> {
    seq![
        "CreateSchemaStmt"@,
        "CreateStmt"@,
        "IndexStmt"@,
        "ViewStmt"@,
        "CreateSeqStmt"@,
        "CreateDomainStmt"@,
        "CreateRoleStmt"@,
        "AlterTableStmt"@,
        "AlterSeqStmt"@,
        "AlterDomainStmt"@,
        "AlterObjectSchemaStmt"@,
        "AlterOwnerStmt"@,
        "AlterRoleStmt"@,
        "AlterRoleSetStmt"@,
        "RenameStmt"@,
        "CommentStmt"@,
        "DropStmt"@,
        "DropRoleStmt"@,
        "GrantStmt"@,
        "RevokeStmt"@,
        "GrantRoleStmt"@,
        "RevokeRoleStmt"@,
        "VariableShowStmt"@,
        "VariableSetStmt"@,
        "VariableResetStmt"@,
        "TransactionStmt"@,
        "ExplainStmt"@,
        "DeallocateStmt"@,
        "SelectStmt"@,
        "InsertStmt"@,
        "UpdateStmt"@,
        "DeleteStmt"@,
    ]
}

/// The rules that statements are recognized from, in the order in which they are tried.
pub fn top_level_rules() -> (r: Vec<String>)
    ensures
        text::views(r@) == top_level(),
{
    let mut out: Vec<String> = Vec::new();
    out.push("CreateSchemaStmt".to_owned());
    out.push("CreateStmt".to_owned());
    out.push("IndexStmt".to_owned());
    out.push("ViewStmt".to_owned());
    out.push("CreateSeqStmt".to_owned());
    out.push("CreateDomainStmt".to_owned());
    out.push("CreateRoleStmt".to_owned());
    out.push("AlterTableStmt".to_owned());
    out.push("AlterSeqStmt".to_owned());
    out.push("AlterDomainStmt".to_owned());
    out.push("AlterObjectSchemaStmt".to_owned());
    out.push("AlterOwnerStmt".to_owned());
    out.push("AlterRoleStmt".to_owned());
    out.push("AlterRoleSetStmt".to_owned());
    out.push("RenameStmt".to_owned());
    out.push("CommentStmt".to_owned());
    out.push("DropStmt".to_owned());
    out.push("DropRoleStmt".to_owned());
    out.push("GrantStmt".to_owned());
    out.push("RevokeStmt".to_owned());
    out.push("GrantRoleStmt".to_owned());
    out.push("RevokeRoleStmt".to_owned());
    out.push("VariableShowStmt".to_owned());
    out.push("VariableSetStmt".to_owned());
    out.push("VariableResetStmt".to_owned());
    out.push("TransactionStmt".to_owned());
    out.push("ExplainStmt".to_owned());
    out.push("DeallocateStmt".to_owned());
    out.push("SelectStmt".to_owned());
    out.push("InsertStmt".to_owned());
    out.push("UpdateStmt".to_owned());
    out.push("DeleteStmt".to_owned());
    proof {
        assert(text::views(out@) =~= top_level());
    }
    out
}

/// A statement of a script, with the line that it begins on.
#[derive(Debug, Clone)]
pub struct SplitStatement {
    pub raw: String,
    pub line: usize,
}

/// The models of statements, as parts of a script.
pub open spec fn statements_view(s: Seq<SplitStatement>) -> Seq<(usize, Seq<char>)> {
    s.map_values(|s: SplitStatement| (s.line, s.raw@))
}

/// The statements of a script. They are those that the linter sees.
pub fn split_statements(sql: &str) -> (r: Result<Vec<SplitStatement>, String>)
    ensures
        match (r, split::split(Dialect::Postgres, sql@)) {
            (Ok(ss), Ok(ps)) => statements_view(ss@) == ps,
            (Err(e), Err(m)) => e@ == m,
            _ => false,
        },
{
    let parts = match split::split_statements(sql) {
        Ok(parts) => parts,
        Err(e) => {
            return Err(e);
        },
    };
    let ghost ps = split::parts_view(parts@);
    let mut out: Vec<SplitStatement> = Vec::new();
    for part in it: parts
        invariant
            ps == split::parts_view(it.seq()),
            out@.len() == it.index(),
            forall|j: int|
                0 <= j < out@.len() ==> (#[trigger] out@[j]).line == ps[j].0 && out@[j].raw@
                    == ps[j].1,
    {
        proof {
            assert(ps[it.index() as int] == (part.0, part.1@));
        }
        let (line, raw) = part;
        out.push(SplitStatement { raw, line });
    }
    proof {
        assert(statements_view(out@) =~= ps);
    }
    Ok(out)
}

/// The text that `Debug` gives of a list of names.
pub uninterp spec fn debugged(names: Seq<Seq<char>>) -> Seq<char>;

/// `Debug` of a list of names.
#[verifier::external_body]
fn debug_list(names: &Vec<String>) -> (r: String)
    ensures
        r@ == debugged(text::views(names@)),
{
    format!("{names:?}")
}

/// The names from which statements should be recognized and that are not defined.
pub open spec fn missing_rules(
    rules: Seq<(Seq<char>, model::RuleModel)>,
    tops: Seq<Seq<char>>,
) -> Seq<Seq<char>>
    decreases tops.len(),
{
    if tops.len() == 0 {
        seq![]
    } else {
        let before = missing_rules(rules, tops.drop_last());
        if model::defines(rules, tops.last()) {
            before
        } else {
            before.push(tops.last())
        }
    }
}

/// Whether a rule is one of statements by its name.
pub open spec fn is_statement_rule(name: Seq<char>) -> bool {
    text::stands_at(name, "Stmt"@, name.len() - "Stmt"@.len())
}

/// The rules of statements that none is recognized from, in order.
pub open spec fn untried_rules(rules: Seq<(Seq<char>, model::RuleModel)>) -> Seq<Seq<char>>
    decreases rules.len(),
{
    if rules.len() == 0 {
        seq![]
    } else {
        let before = untried_rules(rules.drop_last());
        let name = rules.last().0;
        if is_statement_rule(name) && !top_level().contains(name) {
            names::placed(before, name)
        } else {
            before
        }
    }
}

/// The texts of the tokens of a type, in order.
pub open spec fn texts_of(tokens: Seq<model::TokenModel>, token_type: TokenType) -> Seq<Seq<char>>
    decreases tokens.len(),
{
    if tokens.len() == 0 {
        seq![]
    } else {
        let before = texts_of(tokens.drop_last(), token_type);
        if tokens.last().token_type == token_type {
            names::placed(before, tokens.last().text)
        } else {
            before
        }
    }
}

/// A warning about names, where there are any.
pub open spec fn warning_about(head: Seq<char>, found: Seq<Seq<char>>) -> Seq<Seq<char>> {
    if found.len() == 0 {
        seq![]
    } else {
        seq![head + debugged(found)]
    }
}

/// The warnings about a grammar. A statement rule on one side alone, or a rule that is mentioned
/// and not defined, makes statements unrecognizable that should not be.
pub open spec fn warnings_about(rules: Seq<(Seq<char>, model::RuleModel)>) -> Seq<Seq<char>> {
    warning_about(
        "warning: TOP_LEVEL_RULES entries not defined in grammar: "@,
        missing_rules(rules, top_level()),
    ) + warning_about(
        "warning: grammar `*Stmt` rules not in TOP_LEVEL_RULES: "@,
        untried_rules(rules),
    ) + warning_about(
        "warning: non-terminals referenced but not defined: "@,
        missing_rules(
            rules,
            texts_of(model::tokens_of_rules(rules), TokenType::NonTerminal),
        ),
    )
}

/// The roots that statements are recognized from, `upto` of the top-level rules taken.
pub open spec fn roots(rules: Seq<(Seq<char>, model::RuleModel)>, upto: int) -> Seq<Seq<char>>
    decreases upto,
{
    if upto <= 0 {
        seq![]
    } else {
        let before = roots(rules, upto - 1);
        if model::defines(rules, top_level()[upto - 1]) {
            before.push(top_level()[upto - 1])
        } else {
            before
        }
    }
}

/// What the first root, from `at` on, that is refused is refused for.
pub open spec fn first_refusal(
    rules: Seq<(Seq<char>, model::RuleModel)>,
    at: int,
) -> Option<Seq<char>>
    decreases top_level().len() - at,
{
    if !(0 <= at < top_level().len()) {
        None
    } else if model::defines(rules, top_level()[at]) && recognizer::refusal(
        rules,
        top_level()[at],
    ) is Some {
        recognizer::refusal(rules, top_level()[at])
    } else {
        first_refusal(rules, at + 1)
    }
}

/// What a grammar is refused for. `source` names the file that it comes from.
pub open spec fn grammar_refusal(
    rules: Seq<(Seq<char>, model::RuleModel)>,
    source: Seq<char>,
) -> Option<Seq<char>> {
    match first_refusal(rules, 0) {
        Some(reason) => Some(reason),
        None => if roots(rules, top_level().len() as int).len() == 0 {
            Some("no top-level rules from TOP_LEVEL_RULES found in "@ + source)
        } else {
            None
        },
    }
}

/// The parser's input for a script, and the keywords that the grammar has no use for and that
/// are identifiers to it.
pub open spec fn input_of(
    ts: Seq<(Tree, Seq<char>)>,
    rules: Seq<(Seq<char>, model::RuleModel)>,
) -> (Seq<Seq<char>>, Seq<Seq<char>>)
    decreases ts.len(),
{
    if ts.len() == 0 {
        (seq![], seq![])
    } else {
        let before = input_of(ts.drop_last(), rules);
        let t = token::field(ts.last().0, "token"@);
        let term = tokenize::terminal_of(t);
        if term is Skip || t == Tree::Text("SemiColon"@) {
            before
        } else {
            match term {
                tokenize::TerminalModel::Keyword(word) => if model::mentions(
                    model::tokens_of_rules(rules),
                    TokenType::Terminal,
                    word,
                ) {
                    (before.0.push(word), before.1)
                } else {
                    (before.0.push(recognizer::class_name("IDENT"@)), before.1.push(word))
                },
                other => (before.0.push(recognizer::input_string(other)), before.1),
            }
        }
    }
}

/// Whether one of the roots derives the tokens.
pub open spec fn any_root_derives(
    rules: Seq<(Seq<char>, model::RuleModel)>,
    from: Seq<Seq<char>>,
    tokens: Seq<Seq<char>>,
) -> bool {
    exists|i: int| 0 <= i < from.len() && #[trigger] recognizer::derives(rules, from[i], tokens)
}

/// Whether a grammar accepts a statement, and the keywords that were identifiers to it. A text
/// without a token is no statement.
pub open spec fn verdict(rules: Seq<(Seq<char>, model::RuleModel)>, sql: Seq<char>) -> Result<
    (bool, Seq<Seq<char>>),
    Seq<char>,
> {
    match syntax::tokens(Dialect::Postgres, sql) {
        Ok(ts) => {
            let (tokens, demoted) = input_of(ts, rules);
            if tokens.len() == 0 {
                Err("no terminals after Skip filter"@)
            } else {
                Ok(
                    (
                        any_root_derives(rules, roots(rules, top_level().len() as int), tokens),
                        demoted,
                    ),
                )
            }
        },
        Err(e) => Err("tokenize: "@ + e),
    }
}

fn ends_in_stmt(name: &str) -> (r: bool)
    ensures
        r == is_statement_rule(name@),
{
    let chars = chars_of(name);
    let tail = chars_of("Stmt");
    let size: usize = chars.len();
    size >= tail.len() && is_at(&chars, &tail, size - tail.len())
}

/// Whether a name is among others.
fn is_among(names: &Vec<String>, name: &str) -> (r: bool)
    ensures
        r == text::views(names@).contains(name@),
{
    let ghost vs = text::views(names@);
    let mut i: usize = 0;
    while i < names.len()
        invariant
            i <= names@.len(),
            vs == text::views(names@),
            forall|j: int| 0 <= j < i ==> #[trigger] vs[j] != name@,
        decreases names@.len() - i,
    {
        proof {
            assert(vs[i as int] == names@[i as int]@);
        }
        if same(names[i].as_str(), name) {
            return true;
        }
        i += 1;
    }
    false
}

pub fn find_missing(file: &GrammarFile, wanted: &Vec<String>) -> (r: Vec<String>)
    ensures
        text::views(r@) == missing_rules(model::rules_in(file.rules), text::views(wanted@)),
{
    let ghost vs = text::views(wanted@);
    let ghost rs = model::rules_in(file.rules);
    let mut out: Vec<String> = Vec::new();
    let mut i: usize = 0;
    proof {
        assert(vs.take(0) =~= seq![]);
        assert(text::views(out@) =~= seq![]);
    }
    while i < wanted.len()
        invariant
            i <= wanted@.len(),
            vs == text::views(wanted@),
            rs == model::rules_in(file.rules),
            text::views(out@) == missing_rules(rs, vs.take(i as int)),
        decreases wanted@.len() - i,
    {
        proof {
            assert(vs.take(i + 1).drop_last() =~= vs.take(i as int));
            assert(vs.take(i + 1).last() == wanted@[i as int]@);
        }
        if !contains_rule(&file.rules, wanted[i].as_str()) {
            let ghost held = out@;
            let name = wanted[i].clone();
            out.push(name);
            proof {
                assert(text::views(out@) =~= text::views(held).push(name@));
            }
        }
        i += 1;
    }
    proof {
        assert(vs.take(i as int) =~= vs);
    }
    out
}

fn find_untried(rules: &Vec<(&String, &Production)>, tops: &Vec<String>) -> (r: Vec<String>)
    requires
        text::views(tops@) == top_level(),
    ensures
        text::views(r@) == untried_rules(model::entries_model(rules@)),
{
    let ghost rs = model::entries_model(rules@);
    let mut out: Vec<String> = Vec::new();
    let mut i: usize = 0;
    proof {
        assert(rs.take(0) =~= seq![]);
        assert(text::views(out@) =~= seq![]);
    }
    while i < rules.len()
        invariant
            i <= rules@.len(),
            rs == model::entries_model(rules@),
            text::views(tops@) == top_level(),
            text::views(out@) == untried_rules(rs.take(i as int)),
        decreases rules@.len() - i,
    {
        proof {
            assert(rs.take(i + 1).drop_last() =~= rs.take(i as int));
            assert(rs.take(i + 1).last().0 == rules@[i as int].0@);
        }
        let name = rules[i].0.as_str();
        if ends_in_stmt(name) && !is_among(tops, name) {
            place(&mut out, name);
        }
        i += 1;
    }
    proof {
        assert(rs.take(i as int) =~= rs);
    }
    out
}

pub fn find_texts(tokens: &Vec<&GrammarToken>, token_type: TokenType) -> (r: Vec<String>)
    ensures
        text::views(r@) == texts_of(model::refs_model(tokens@), token_type),
{
    let ghost ts = model::refs_model(tokens@);
    let mut out: Vec<String> = Vec::new();
    let mut i: usize = 0;
    proof {
        assert(ts.take(0) =~= seq![]);
        assert(text::views(out@) =~= seq![]);
    }
    while i < tokens.len()
        invariant
            i <= tokens@.len(),
            ts == model::refs_model(tokens@),
            text::views(out@) == texts_of(ts.take(i as int), token_type),
        decreases tokens@.len() - i,
    {
        proof {
            assert(ts.take(i + 1).drop_last() =~= ts.take(i as int));
            assert(ts.take(i + 1).last() == tokens@[i as int]@);
        }
        if tokens[i].token_type == token_type {
            place(&mut out, tokens[i].text.as_str());
        }
        i += 1;
    }
    proof {
        assert(ts.take(i as int) =~= ts);
    }
    out
}

fn warn_about(head: &str, found: &Vec<String>, warnings: &mut Vec<String>)
    ensures
        text::views(final(warnings)@) == text::views(old(warnings)@) + warning_about(
            head@,
            text::views(found@),
        ),
{
    let ghost held = text::views(warnings@);
    proof {
        assert(held + seq![] =~= held);
    }
    if found.len() > 0 {
        let mut line = head.to_owned();
        line.append(debug_list(found).as_str());
        warnings.push(line);
        proof {
            assert(text::views(warnings@) =~= held + seq![line@]);
        }
    }
}

/// A grammar that statements can be held against.
pub struct Grammar {
    file: GrammarFile,
    /// A recognizer for each root, in order.
    recognizers: Vec<(String, GrammarRecognizer)>,
    /// Every keyword of the grammar.
    grammar_keywords: Vec<String>,
}

impl Grammar {
    /// The rules of the grammar.
    pub closed spec fn rules(&self) -> Seq<(Seq<char>, model::RuleModel)> {
        model::rules_in(self.file.rules)
    }

    #[verifier::type_invariant]
    spec fn well_formed(self) -> bool {
        let rs = model::rules_in(self.file.rules);
        let from = roots(rs, top_level().len() as int);
        &&& self.recognizers@.len() == from.len()
        &&& forall|i: int|
            0 <= i < from.len() ==> (#[trigger] self.recognizers@[i]).1.made_for(rs, from[i])
        &&& text::views(self.grammar_keywords@) == texts_of(
            model::tokens_of_rules(rs),
            TokenType::Terminal,
        )
    }

    /// A grammar of the given rules, which come from `source`, and the warnings about it.
    #[verifier::loop_isolation(false)]
    pub fn load_with_warnings(
        file: GrammarFile,
        source: &str,
        warnings: &mut Vec<String>,
    ) -> (r: Result<Grammar, String>)
        ensures
            match (r, grammar_refusal(model::rules_in(file.rules), source@)) {
                (Ok(grammar), None) => grammar.rules() == model::rules_in(file.rules),
                (Err(e), Some(reason)) => e@ == reason,
                _ => false,
            },
            text::views(final(warnings)@) == text::views(old(warnings)@) + warnings_about(
                model::rules_in(file.rules),
            ),
    {
        let ghost rs = model::rules_in(file.rules);
        let ghost said = text::views(warnings@);
        let tops = top_level_rules();
        let missing = find_missing(&file, &tops);
        warn_about(
            "warning: TOP_LEVEL_RULES entries not defined in grammar: ",
            &missing,
            warnings,
        );
        let rules = entries(&file.rules);
        let untried = find_untried(&rules, &tops);
        warn_about(
            "warning: grammar `*Stmt` rules not in TOP_LEVEL_RULES: ",
            &untried,
            warnings,
        );
        let tokens = all_tokens(&rules);
        let mentioned = find_texts(&tokens, TokenType::NonTerminal);
        let gone = find_missing(&file, &mentioned);
        warn_about("warning: non-terminals referenced but not defined: ", &gone, warnings);
        let grammar_keywords = find_texts(&tokens, TokenType::Terminal);
        proof {
            assert(text::views(warnings@) =~= said + warnings_about(rs));
        }
        let mut recognizers: Vec<(String, GrammarRecognizer)> = Vec::new();
        let mut i: usize = 0;
        while i < tops.len()
            invariant
                i <= tops@.len(),
                text::views(tops@) == top_level(),
                rs == model::rules_in(file.rules),
                recognizers@.len() == roots(rs, i as int).len(),
                forall|k: int|
                    0 <= k < recognizers@.len() ==> (#[trigger] recognizers@[k]).1.made_for(
                        rs,
                        roots(rs, i as int)[k],
                    ),
                first_refusal(rs, 0) == first_refusal(rs, i as int),
            decreases tops@.len() - i,
        {
            proof {
                assert(top_level()[i as int] == tops@[i as int]@);
            }
            if contains_rule(&file.rules, tops[i].as_str()) {
                match GrammarRecognizer::build(&file, tops[i].as_str()) {
                    Ok(recognizer) => {
                        let name = tops[i].clone();
                        recognizers.push((name, recognizer));
                    },
                    Err(e) => {
                        return Err(e);
                    },
                }
            }
            i += 1;
        }
        if recognizers.len() == 0 {
            let mut reason = "no top-level rules from TOP_LEVEL_RULES found in ".to_owned();
            reason.append(source);
            return Err(reason);
        }
        Ok(Grammar { file, recognizers, grammar_keywords })
    }

    /// Whether the grammar accepts a statement, and the keywords that were identifiers to it.
    pub fn accepts_with_demotions(&self, sql: &str) -> (r: Result<(bool, Vec<String>), String>)
        ensures
            match (r, verdict(self.rules(), sql@)) {
                (Ok((b, words)), Ok((v, demoted))) => b == v && text::views(words@) == demoted,
                (Err(e), Err(m)) => e@ == m,
                _ => false,
            },
    {
        proof {
            use_type_invariant(self);
        }
        let ghost rs = self.rules();
        let found = match syntax::tokenize(Dialect::Postgres, sql) {
            Ok(found) => found,
            Err(e) => {
                let mut reason = "tokenize: ".to_owned();
                reason.append(e.as_str());
                return Err(reason);
            },
        };
        let (tokens, demoted) = self.read_input(&found);
        if tokens.len() == 0 {
            return Err("no terminals after Skip filter".to_owned());
        }
        let accepted = self.any_accepts(&tokens);
        Ok((accepted, demoted))
    }

    /// The parser's input for tokens, and the keywords that are identifiers to the grammar.
    pub fn read_input(&self, found: &Vec<(Value, String)>) -> (r: (Vec<String>, Vec<String>))
        ensures
            ({
                let ts = found@.map_values(|v: (Value, String)| (syntax::tree(v.0), v.1@));
                (text::views(r.0@), text::views(r.1@)) == input_of(ts, self.rules())
            }),
    {
        proof {
            use_type_invariant(self);
        }
        let ghost rs = self.rules();
        let ghost ts = found@.map_values(|v: (Value, String)| (syntax::tree(v.0), v.1@));
        let mut tokens: Vec<String> = Vec::new();
        let mut demoted: Vec<String> = Vec::new();
        let mut i: usize = 0;
        proof {
            lemma_texts(model::tokens_of_rules(rs), TokenType::Terminal);
            assert(ts.take(0) =~= seq![]);
            assert(text::views(tokens@) =~= seq![]);
            assert(text::views(demoted@) =~= seq![]);
        }
        while i < found.len()
            invariant
                i <= found@.len(),
                rs == self.rules(),
                ts == found@.map_values(|v: (Value, String)| (syntax::tree(v.0), v.1@)),
                text::views(self.grammar_keywords@) == texts_of(
                    model::tokens_of_rules(rs),
                    TokenType::Terminal,
                ),
                forall|x: Seq<char>| #[trigger]
                    texts_of(model::tokens_of_rules(rs), TokenType::Terminal).contains(x)
                        <==> model::mentions(model::tokens_of_rules(rs), TokenType::Terminal, x),
                (text::views(tokens@), text::views(demoted@)) == input_of(ts.take(i as int), rs),
            decreases found@.len() - i,
        {
            let ghost held = tokens@;
            let ghost held_words = demoted@;
            proof {
                assert(ts.take(i + 1).drop_last() =~= ts.take(i as int));
                assert(ts.take(i + 1).last() == ts[i as int]);
            }
            let tok = field(&found[i].0, "token");
            let term = map_token(&tok);
            let semicolon = match as_text(&tok) {
                Some(s) => same(s, "SemiColon"),
                None => false,
            };
            if !semicolon {
                match term {
                    Terminal::Skip => {},
                    Terminal::Keyword(word) => {
                        if is_among(&self.grammar_keywords, word.as_str()) {
                            tokens.push(word);
                            proof {
                                assert(text::views(tokens@) =~= text::views(held).push(word@));
                            }
                        } else {
                            let class = charclass_terminal_name("IDENT");
                            tokens.push(class);
                            demoted.push(word);
                            proof {
                                assert(text::views(tokens@) =~= text::views(held).push(class@));
                                assert(text::views(demoted@) =~= text::views(held_words).push(
                                    word@,
                                ));
                            }
                        }
                    },
                    other => {
                        let name = terminal_input_string(&other);
                        tokens.push(name);
                        proof {
                            assert(text::views(tokens@) =~= text::views(held).push(name@));
                        }
                    },
                }
            }
            i += 1;
        }
        proof {
            assert(ts.take(i as int) =~= ts);
        }
        (tokens, demoted)
    }

    /// Whether one of the recognizers accepts the tokens.
    pub fn any_accepts(&self, tokens: &Vec<String>) -> (r: bool)
        ensures
            r == any_root_derives(
                self.rules(),
                roots(self.rules(), top_level().len() as int),
                text::views(tokens@),
            ),
    {
        proof {
            use_type_invariant(self);
        }
        let ghost rs = self.rules();
        let ghost from = roots(rs, top_level().len() as int);
        let ghost vs = text::views(tokens@);
        let mut i: usize = 0;
        while i < self.recognizers.len()
            invariant
                i <= self.recognizers@.len(),
                rs == self.rules(),
                from == roots(rs, top_level().len() as int),
                vs == text::views(tokens@),
                self.recognizers@.len() == from.len(),
                forall|i: int|
                    0 <= i < from.len() ==> (#[trigger] self.recognizers@[i]).1.made_for(
                        rs,
                        from[i],
                    ),
                forall|j: int| 0 <= j < i ==> !#[trigger] recognizer::derives(rs, from[j], vs),
            decreases self.recognizers@.len() - i,
        {
            proof {
                assert(self.recognizers@[i as int].1.made_for(rs, from[i as int]));
            }
            if self.recognizers[i].1.accepts(tokens) {
                proof {
                    assert(recognizer::derives(rs, from[i as int], vs));
                }
                return true;
            }
            i += 1;
        }
        false
    }

    /// Whether the grammar accepts a statement.
    pub fn accepts(&self, sql: &str) -> (r: Result<bool, String>)
        ensures
            match (r, verdict(self.rules(), sql@)) {
                (Ok(b), Ok((v, _))) => b == v,
                (Err(e), Err(m)) => e@ == m,
                _ => false,
            },
    {
        match self.accepts_with_demotions(sql) {
            Ok((v, _)) => Ok(v),
            Err(e) => Err(e),
        }
    }

    /// The classes of lexemes that the grammar mentions, in order.
    pub fn referenced_charclasses(&self) -> (r: Vec<String>)
        ensures
            text::views(r@) == texts_of(
                model::tokens_of_rules(self.rules()),
                TokenType::CharClass,
            ),
    {
        let rules = entries(&self.file.rules);
        find_texts(&all_tokens(&rules), TokenType::CharClass)
    }
}

proof fn lemma_texts(tokens: Seq<model::TokenModel>, token_type: TokenType)
    ensures
        names::is_ordered(texts_of(tokens, token_type)),
        forall|x: Seq<char>| #[trigger]
            texts_of(tokens, token_type).contains(x) <==> model::mentions(tokens, token_type, x),
    decreases tokens.len(),
{
    if tokens.len() > 0 {
        let front = tokens.drop_last();
        let last = tokens.last();
        lemma_texts(front, token_type);
        if last.token_type == token_type {
            names::lemma_placed(texts_of(front, token_type), last.text);
        }
        assert forall|x: Seq<char>| #[trigger]
            texts_of(tokens, token_type).contains(x) <==> model::mentions(
            tokens,
            token_type,
            x,
        ) by {
            if model::mentions(front, token_type, x) {
                let i = choose|i: int|
                    0 <= i < front.len() && #[trigger] front[i].text == x && front[i].token_type
                        == token_type;
                assert(tokens[i].text == x);
            }
            if model::mentions(tokens, token_type, x) {
                let i = choose|i: int|
                    0 <= i < tokens.len() && #[trigger] tokens[i].text == x
                        && tokens[i].token_type == token_type;
                if i < front.len() {
                    assert(front[i].text == x);
                }
            }
            if last.token_type == token_type {
                assert(tokens[tokens.len() - 1].text == last.text);
            }
        }
    }
}

/// The texts of a type of tokens are those that a token of the type has, in order, none twice.
pub proof fn law_texts_are_mentioned(
    rules: Seq<(Seq<char>, model::RuleModel)>,
    token_type: TokenType,
)
    ensures
        names::is_ordered(texts_of(model::tokens_of_rules(rules), token_type)),
        forall|x: Seq<char>| #[trigger]
            texts_of(model::tokens_of_rules(rules), token_type).contains(x) <==> model::mentions(
                model::tokens_of_rules(rules),
                token_type,
                x,
            ),
{
    lemma_texts(model::tokens_of_rules(rules), token_type);
}

/// No keyword in the parser's input is one that the grammar has no use for, and each that it has
/// no use for is told.
pub proof fn law_demoted_keywords_are_unknown(
    ts: Seq<(Tree, Seq<char>)>,
    rules: Seq<(Seq<char>, model::RuleModel)>,
)
    ensures
        forall|i: int|
            0 <= i < input_of(ts, rules).1.len() ==> !model::mentions(
                model::tokens_of_rules(rules),
                TokenType::Terminal,
                #[trigger] input_of(ts, rules).1[i],
            ),
        input_of(ts, rules).1.len() <= input_of(ts, rules).0.len() <= ts.len(),
    decreases ts.len(),
{
    if ts.len() > 0 {
        let before = input_of(ts.drop_last(), rules);
        law_demoted_keywords_are_unknown(ts.drop_last(), rules);
        assert forall|i: int| 0 <= i < input_of(ts, rules).1.len() implies !model::mentions(
            model::tokens_of_rules(rules),
            TokenType::Terminal,
            #[trigger] input_of(ts, rules).1[i],
        ) by {
            if i < before.1.len() {
                assert(before.1[i] == input_of(ts, rules).1[i]);
            }
        }
    }
}

} // verus!
