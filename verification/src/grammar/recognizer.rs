//! A grammar lowered to plain rules, and the Earley parser that recognizes them. Each statement
//! rule has a parser of its own.

use earlgrey::{EarleyParser, GrammarBuilder};
use vstd::prelude::*;
use vstd::string::StringExecFns;

use crate::grammar::model::{
    self, all_tokens, contains_rule, entries, has_token, GrammarFile, GrammarToken, Production,
    TokenType,
};
use crate::grammar::tokenize::{self, Terminal};
use crate::text::{self, same};

verus! {

#[verifier::external_type_specification]
#[verifier::external_body]
pub struct ExGrammarBuilder(earlgrey::GrammarBuilder);

#[verifier::external_type_specification]
#[verifier::external_body]
pub struct ExEarleyParser(earlgrey::EarleyParser);

/// The symbols of a builder by their names, with whether each is a terminal.
pub uninterp spec fn builder_symbols(b: GrammarBuilder) -> Map<Seq<char>, bool>;

/// The rules of a builder, each a head with the symbols that it stands for.
pub uninterp spec fn builder_rules(b: GrammarBuilder) -> Seq<(Seq<char>, Seq<Seq<char>>)>;

/// What a builder was given that makes no grammar.
pub uninterp spec fn builder_error(b: GrammarBuilder) -> Option<Seq<char>>;

/// The start, the symbols and the rules of the grammar that a parser was made with.
pub uninterp spec fn parser_parts(p: EarleyParser) -> (
    Seq<char>,
    Map<Seq<char>, bool>,
    Seq<(Seq<char>, Seq<Seq<char>>)>,
);

/// Whether a symbol derives the tokens, by derivations that are `n` rules deep at most. A terminal
/// derives its own name alone.
pub open spec fn derives_within(
    symbols: Map<Seq<char>, bool>,
    rules: Seq<(Seq<char>, Seq<Seq<char>>)>,
    symbol: Seq<char>,
    tokens: Seq<Seq<char>>,
    n: nat,
) -> bool
    decreases n, 0nat,
{
    if symbols.dom().contains(symbol) && symbols[symbol] {
        tokens == seq![symbol]
    } else {
        n > 0 && exists|i: int|
            0 <= i < rules.len() && (#[trigger] rules[i]).0 == symbol && side_derives(
                symbols,
                rules,
                rules[i].1,
                tokens,
                (n - 1) as nat,
            )
    }
}

/// Whether the symbols of a side derive the tokens, one behind the other.
pub open spec fn side_derives(
    symbols: Map<Seq<char>, bool>,
    rules: Seq<(Seq<char>, Seq<Seq<char>>)>,
    side: Seq<Seq<char>>,
    tokens: Seq<Seq<char>>,
    n: nat,
) -> bool
    decreases n, side.len(),
{
    if side.len() == 0 {
        tokens.len() == 0
    } else {
        exists|k: int|
            0 <= k <= tokens.len() && derives_within(
                symbols,
                rules,
                side[0],
                #[trigger] tokens.take(k),
                n,
            ) && side_derives(symbols, rules, side.skip(1), tokens.skip(k), n)
    }
}

/// Whether the rules derive the tokens from the start.
pub open spec fn recognizes(
    start: Seq<char>,
    symbols: Map<Seq<char>, bool>,
    rules: Seq<(Seq<char>, Seq<Seq<char>>)>,
    tokens: Seq<Seq<char>>,
) -> bool {
    exists|n: nat| #[trigger] derives_within(symbols, rules, start, tokens, n)
}

/// The symbols with one more, unless one has that name already.
pub open spec fn with_symbol(
    symbols: Map<Seq<char>, bool>,
    name: Seq<char>,
    terminal: bool,
) -> Map<Seq<char>, bool> {
    if symbols.dom().contains(name) {
        symbols
    } else {
        symbols.insert(name, terminal)
    }
}

/// The rules with one more, unless it is among them already.
pub open spec fn with_rule(
    rules: Seq<(Seq<char>, Seq<Seq<char>>)>,
    rule: (Seq<char>, Seq<Seq<char>>),
) -> Seq<(Seq<char>, Seq<Seq<char>>)> {
    if rules.contains(rule) {
        rules
    } else {
        rules.push(rule)
    }
}

/// Whether a rule speaks of symbols of the grammar alone, and its head is no terminal.
pub open spec fn well_formed(
    symbols: Map<Seq<char>, bool>,
    rule: (Seq<char>, Seq<Seq<char>>),
) -> bool {
    &&& symbols.dom().contains(rule.0)
    &&& !symbols[rule.0]
    &&& forall|i: int| 0 <= i < rule.1.len() ==> symbols.dom().contains(#[trigger] rule.1[i])
}

/// `GrammarBuilder::default`: nothing is in it.
#[verifier::external_body]
fn new_builder() -> (r: GrammarBuilder)
    ensures
        builder_symbols(r).dom() == Set::<Seq<char>>::empty(),
        builder_rules(r).len() == 0,
        builder_error(r) is None,
{
    GrammarBuilder::default()
}

/// Whether a lexeme is the one that a terminal names.
fn is_lexeme(lexeme: &str, name: &str) -> (r: bool)
    ensures
        r == (lexeme@ == name@),
{
    same(lexeme, name)
}

/// `GrammarBuilder::terminal_try`: a terminal that matches its own name, unless a symbol has
/// that name already.
#[verifier::external_body]
fn add_terminal(b: &mut GrammarBuilder, name: &str)
    ensures
        builder_symbols(*final(b)) == with_symbol(builder_symbols(*old(b)), name@, true),
        builder_rules(*final(b)) == builder_rules(*old(b)),
        builder_error(*final(b)) == builder_error(*old(b)),
{
    let owned = name.to_string();
    b.terminal_try(name, move |s| is_lexeme(s, &owned));
}

/// `GrammarBuilder::nonterm_try`: a symbol that rules stand for, unless one has that name
/// already.
#[verifier::external_body]
fn add_nonterm(b: &mut GrammarBuilder, name: &str)
    ensures
        builder_symbols(*final(b)) == with_symbol(builder_symbols(*old(b)), name@, false),
        builder_rules(*final(b)) == builder_rules(*old(b)),
        builder_error(*final(b)) == builder_error(*old(b)),
{
    b.nonterm_try(name);
}

/// `GrammarBuilder::rule_try`: a rule, unless it is there already. One that speaks of a symbol
/// that is not there, or whose head is a terminal, is not added but remembered as an error; the
/// text of the error is not stated.
#[verifier::external_body]
fn add_rule(b: &mut GrammarBuilder, head: &str, spec: &Vec<String>)
    ensures
        builder_symbols(*final(b)) == builder_symbols(*old(b)),
        well_formed(builder_symbols(*old(b)), (head@, text::views(spec@))) ==> builder_rules(
            *final(b),
        ) == with_rule(builder_rules(*old(b)), (head@, text::views(spec@))) && builder_error(
            *final(b),
        ) == builder_error(*old(b)),
        !well_formed(builder_symbols(*old(b)), (head@, text::views(spec@))) ==> builder_rules(
            *final(b),
        ) == builder_rules(*old(b)) && builder_error(*final(b)) is Some,
{
    let refs: Vec<&str> = spec.iter().map(|s| s.as_str()).collect();
    b.rule_try(head, &refs);
}

/// `GrammarBuilder::into_grammar` and `EarleyParser::new`: a parser with the builder's grammar
/// and the given start, which must be a symbol that rules stand for. An error that the builder
/// remembers, or that the start makes, is returned; its text is not stated.
#[verifier::external_body]
fn into_parser(b: GrammarBuilder, start: &str) -> (r: Result<EarleyParser, String>)
    ensures
        match r {
            Ok(p) => {
                &&& builder_error(b) is None
                &&& builder_symbols(b).dom().contains(start@)
                &&& !builder_symbols(b)[start@]
                &&& parser_parts(p) == (start@, builder_symbols(b), builder_rules(b))
            },
            Err(_) => builder_error(b) is Some || !builder_symbols(b).dom().contains(start@)
                || builder_symbols(b)[start@],
        },
{
    b.into_grammar(start).map(EarleyParser::new)
}

/// `EarleyParser::parse`: it finds a parse of the tokens where the grammar's rules derive them from
/// the start, left-recursive and empty rules not excepted, and nowhere else.
#[verifier::external_body]
fn parses(p: &EarleyParser, tokens: &Vec<String>) -> (r: bool)
    ensures
        r == recognizes(
            parser_parts(*p).0,
            parser_parts(*p).1,
            parser_parts(*p).2,
            text::views(tokens@),
        ),
{
    p.parse(tokens.iter().map(|s| s.as_str())).is_ok()
}

/// The name of the terminal for a class of lexemes. The prefix keeps it apart from the rules.
pub open spec fn class_name(class: Seq<char>) -> Seq<char> {
    "__CC_"@ + class
}

/// The name of the symbol that a token of a rule stands for.
pub open spec fn symbol_name(t: model::TokenModel) -> Seq<char> {
    match t.token_type {
        TokenType::CharClass => class_name(t.text),
        _ => t.text,
    }
}

/// The name of the terminal for a class of lexemes.
pub fn charclass_terminal_name(class: &str) -> (r: String)
    ensures
        r@ == class_name(class@),
{
    let mut out = "__CC_".to_owned();
    out.append(class);
    out
}

/// The name of the symbol that a token of a rule stands for.
pub fn token_terminal_name(t: &GrammarToken) -> (r: String)
    ensures
        r@ == symbol_name(t@),
{
    match t.token_type {
        TokenType::CharClass => charclass_terminal_name(t.text.as_str()),
        _ => t.text.clone(),
    }
}

/// What a terminal is called in the parser's input.
pub open spec fn input_string(t: tokenize::TerminalModel) -> Seq<char> {
    match t {
        tokenize::TerminalModel::Keyword(s) => s,
        tokenize::TerminalModel::Punct(s) => s,
        tokenize::TerminalModel::CharClass(s) => class_name(s),
        tokenize::TerminalModel::Skip => seq![],
    }
}

/// What a terminal is called in the parser's input. White space has no place there.
pub fn terminal_input_string(t: &Terminal) -> (r: String)
    requires
        !(t@ is Skip),
    ensures
        r@ == input_string(t@),
{
    match t {
        Terminal::Keyword(s) => s.clone(),
        Terminal::Punct(s) => (*s).to_owned(),
        Terminal::CharClass(name) => charclass_terminal_name(name),
        Terminal::Skip => String::new(),
    }
}

/// The symbols that the names of rules make.
pub open spec fn rule_symbols(rules: Seq<(Seq<char>, model::RuleModel)>) -> Map<Seq<char>, bool>
    decreases rules.len(),
{
    if rules.len() == 0 {
        Map::empty()
    } else {
        with_symbol(rule_symbols(rules.drop_last()), rules.last().0, false)
    }
}

/// The symbols with those that rules are mentioned by.
pub open spec fn with_nonterms(
    symbols: Map<Seq<char>, bool>,
    tokens: Seq<model::TokenModel>,
) -> Map<Seq<char>, bool>
    decreases tokens.len(),
{
    if tokens.len() == 0 {
        symbols
    } else {
        let before = with_nonterms(symbols, tokens.drop_last());
        if tokens.last().token_type == TokenType::NonTerminal {
            with_symbol(before, tokens.last().text, false)
        } else {
            before
        }
    }
}

/// The symbols with the terminals; a rule of the same name goes before a terminal.
pub open spec fn with_terminals(
    symbols: Map<Seq<char>, bool>,
    tokens: Seq<model::TokenModel>,
) -> Map<Seq<char>, bool>
    decreases tokens.len(),
{
    if tokens.len() == 0 {
        symbols
    } else {
        let before = with_terminals(symbols, tokens.drop_last());
        if tokens.last().token_type == TokenType::NonTerminal {
            before
        } else {
            with_symbol(before, symbol_name(tokens.last()), true)
        }
    }
}

/// The separator of a repetition; `None` where there is none, or it is empty.
pub open spec fn separator(rule: model::RuleModel) -> Option<Seq<char>> {
    match rule.repetition {
        Some(sep) => if sep.len() > 0 {
            Some(sep)
        } else {
            None
        },
        None => None,
    }
}

/// The symbols with the separators of repetitions.
pub open spec fn with_separators(
    symbols: Map<Seq<char>, bool>,
    rules: Seq<(Seq<char>, model::RuleModel)>,
) -> Map<Seq<char>, bool>
    decreases rules.len(),
{
    if rules.len() == 0 {
        symbols
    } else {
        let before = with_separators(symbols, rules.drop_last());
        match separator(rules.last().1) {
            Some(sep) => with_symbol(before, sep, true),
            None => before,
        }
    }
}

/// The symbols of a grammar.
pub open spec fn symbols_of(rules: Seq<(Seq<char>, model::RuleModel)>) -> Map<Seq<char>, bool> {
    let tokens = model::tokens_of_rules(rules);
    with_separators(
        with_terminals(with_nonterms(rule_symbols(rules), tokens), tokens),
        rules,
    )
}

/// The symbols that a choice stands for.
pub open spec fn right_side(choice: Seq<model::TokenModel>) -> Seq<Seq<char>> {
    choice.map_values(|t: model::TokenModel| symbol_name(t))
}

/// The plain rules of one choice: of a repetition, one that goes on and one that begins.
pub open spec fn lowered_choice(
    name: Seq<char>,
    rule: model::RuleModel,
    choice: Seq<model::TokenModel>,
) -> Seq<(Seq<char>, Seq<Seq<char>>)> {
    let plain = (name, right_side(choice));
    match rule.repetition {
        None => seq![plain],
        Some(_) => {
            let lead = match separator(rule) {
                Some(sep) => seq![name, sep],
                None => seq![name],
            };
            seq![(name, lead + right_side(choice)), plain]
        },
    }
}

/// The plain rules of the choices of one rule.
pub open spec fn lowered_choices(
    name: Seq<char>,
    rule: model::RuleModel,
    choices: Seq<Seq<model::TokenModel>>,
) -> Seq<(Seq<char>, Seq<Seq<char>>)>
    decreases choices.len(),
{
    if choices.len() == 0 {
        seq![]
    } else {
        lowered_choices(name, rule, choices.drop_last()) + lowered_choice(
            name,
            rule,
            choices.last(),
        )
    }
}

/// The plain rules of one rule, one of them empty where it may match nothing.
pub open spec fn lowered_rule(name: Seq<char>, rule: model::RuleModel) -> Seq<
    (Seq<char>, Seq<Seq<char>>),
> {
    let of_choices = lowered_choices(name, rule, rule.choices);
    if rule.optional {
        of_choices.push((name, seq![]))
    } else {
        of_choices
    }
}

/// The plain rules of a grammar.
pub open spec fn lowered(rules: Seq<(Seq<char>, model::RuleModel)>) -> Seq<
    (Seq<char>, Seq<Seq<char>>),
>
    decreases rules.len(),
{
    if rules.len() == 0 {
        seq![]
    } else {
        lowered(rules.drop_last()) + lowered_rule(rules.last().0, rules.last().1)
    }
}

/// The rules without those that come again.
pub open spec fn distinct(rules: Seq<(Seq<char>, Seq<Seq<char>>)>) -> Seq<
    (Seq<char>, Seq<Seq<char>>),
>
    decreases rules.len(),
{
    if rules.len() == 0 {
        seq![]
    } else {
        with_rule(distinct(rules.drop_last()), rules.last())
    }
}

/// Whether a name is that of a rule, defined or mentioned.
pub open spec fn names_rule(rules: Seq<(Seq<char>, model::RuleModel)>, name: Seq<char>) -> bool {
    model::defines(rules, name) || model::mentions(
        model::tokens_of_rules(rules),
        TokenType::NonTerminal,
        name,
    )
}

/// The first separator, from the rule `at` on, that has the name of a rule.
pub open spec fn collision(rules: Seq<(Seq<char>, model::RuleModel)>, at: int) -> Option<Seq<char>>
    decreases rules.len() - at,
{
    if !(0 <= at < rules.len()) {
        None
    } else {
        match separator(rules[at].1) {
            Some(sep) => if names_rule(rules, sep) {
                Some(sep)
            } else {
                collision(rules, at + 1)
            },
            None => collision(rules, at + 1),
        }
    }
}

/// What a grammar is refused for, as the root of statements.
pub open spec fn refusal(
    rules: Seq<(Seq<char>, model::RuleModel)>,
    root: Seq<char>,
) -> Option<Seq<char>> {
    if !model::defines(rules, root) {
        Some("root rule '"@ + root + "' not defined in grammar"@)
    } else {
        match collision(rules, 0) {
            Some(sep) => Some(
                "repetition separator '"@ + sep + "' collides with a defined rule name"@,
            ),
            None => None,
        }
    }
}

/// Whether the rules of a grammar derive a sequence of tokens from a root.
pub open spec fn derives(
    rules: Seq<(Seq<char>, model::RuleModel)>,
    root: Seq<char>,
    tokens: Seq<Seq<char>>,
) -> bool {
    recognizes(root, symbols_of(rules), distinct(lowered(rules)), tokens)
}

/// The models of plain rules.
pub open spec fn rules_model(rules: Seq<(String, Vec<String>)>) -> Seq<
    (Seq<char>, Seq<Seq<char>>),
> {
    rules.map_values(|r: (String, Vec<String>)| (r.0@, text::views(r.1@)))
}

/// The symbols that a choice stands for, behind those of `lead`.
pub fn lower_side(lead: Vec<String>, choice: &Vec<GrammarToken>) -> (r: Vec<String>)
    ensures
        text::views(r@) == text::views(lead@) + right_side(model::choice_model(choice@)),
{
    let ghost names = right_side(model::choice_model(choice@));
    let ghost held = text::views(lead@);
    let mut out = lead;
    let mut i: usize = 0;
    proof {
        assert(held + names.take(0) =~= held);
    }
    while i < choice.len()
        invariant
            i <= choice@.len(),
            names == right_side(model::choice_model(choice@)),
            text::views(out@) == held + names.take(i as int),
        decreases choice@.len() - i,
    {
        let ghost before = out@;
        let name = token_terminal_name(&choice[i]);
        out.push(name);
        proof {
            assert(model::choice_model(choice@)[i as int] == choice@[i as int]@);
            assert(names[i as int] == name@);
            assert(text::views(out@) =~= text::views(before).push(name@));
            assert(held + names.take(i + 1) =~= (held + names.take(i as int)).push(name@));
        }
        i += 1;
    }
    proof {
        assert(names.take(i as int) =~= names);
    }
    out
}

fn push_rule(name: &str, side: Vec<String>, out: &mut Vec<(String, Vec<String>)>)
    ensures
        rules_model(final(out)@) == rules_model(old(out)@).push((name@, text::views(side@))),
{
    let ghost held = rules_model(out@);
    let ghost view = (name@, text::views(side@));
    out.push((name.to_owned(), side));
    proof {
        assert(rules_model(out@) =~= held.push(view));
    }
}

/// The separator of a repetition; `None` where there is none, or it is empty.
fn read_separator<'a>(prod: &'a Production) -> (r: Option<&'a str>)
    ensures
        match (r, separator(prod@)) {
            (Some(s), Some(sep)) => s@ == sep,
            (None, None) => true,
            _ => false,
        },
{
    match &prod.repetition {
        Some(sep) => if sep.as_str().is_empty() {
            None
        } else {
            Some(sep.as_str())
        },
        None => None,
    }
}

pub fn lower_choice(
    name: &str,
    prod: &Production,
    choice: &Vec<GrammarToken>,
    out: &mut Vec<(String, Vec<String>)>,
)
    ensures
        rules_model(final(out)@) == rules_model(old(out)@) + lowered_choice(
            name@,
            prod@,
            model::choice_model(choice@),
        ),
{
    let ghost held = rules_model(out@);
    let ghost side = right_side(model::choice_model(choice@));
    if prod.repetition.is_some() {
        let mut lead: Vec<String> = Vec::new();
        lead.push(name.to_owned());
        if let Some(sep) = read_separator(prod) {
            lead.push(sep.to_owned());
        }
        proof {
            let want = match separator(prod@) {
                Some(sep) => seq![name@, sep],
                None => seq![name@],
            };
            assert(text::views(lead@) =~= want);
        }
        let rec = lower_side(lead, choice);
        push_rule(name, rec, out);
    }
    let empty: Vec<String> = Vec::new();
    proof {
        assert(text::views(empty@) + side =~= side);
    }
    let plain = lower_side(empty, choice);
    push_rule(name, plain, out);
    proof {
        assert(rules_model(out@) =~= held + lowered_choice(
            name@,
            prod@,
            model::choice_model(choice@),
        ));
    }
}

pub fn lower_rule(name: &str, prod: &Production, out: &mut Vec<(String, Vec<String>)>)
    ensures
        rules_model(final(out)@) == rules_model(old(out)@) + lowered_rule(name@, prod@),
{
    let ghost held = rules_model(out@);
    let ghost cs = prod@.choices;
    let mut i: usize = 0;
    proof {
        assert(cs.take(0) =~= seq![]);
        assert(held + lowered_choices(name@, prod@, cs.take(0)) =~= held);
    }
    while i < prod.choices.len()
        invariant
            i <= prod.choices@.len(),
            cs == prod@.choices,
            rules_model(out@) == held + lowered_choices(name@, prod@, cs.take(i as int)),
        decreases prod.choices@.len() - i,
    {
        proof {
            assert(cs.take(i + 1).drop_last() =~= cs.take(i as int));
            assert(cs.take(i + 1).last() == model::choice_model(prod.choices@[i as int]@));
            assert(held + lowered_choices(name@, prod@, cs.take(i + 1)) =~= (held
                + lowered_choices(name@, prod@, cs.take(i as int))) + lowered_choice(
                name@,
                prod@,
                cs[i as int],
            ));
        }
        lower_choice(name, prod, &prod.choices[i], out);
        i += 1;
    }
    proof {
        assert(cs.take(i as int) =~= cs);
    }
    if prod.optional {
        let empty: Vec<String> = Vec::new();
        proof {
            assert(text::views(empty@) =~= seq![]);
            let of_choices = lowered_choices(name@, prod@, cs);
            assert(held + of_choices.push((name@, seq![])) =~= (held + of_choices).push(
                (name@, seq![]),
            ));
        }
        push_rule(name, empty, out);
    }
}

/// The plain rules of a grammar.
pub fn lower_rules(rules: &Vec<(&String, &Production)>) -> (r: Vec<(String, Vec<String>)>)
    ensures
        rules_model(r@) == lowered(model::entries_model(rules@)),
{
    let ghost rs = model::entries_model(rules@);
    let mut out: Vec<(String, Vec<String>)> = Vec::new();
    let mut i: usize = 0;
    proof {
        assert(rs.take(0) =~= seq![]);
        assert(rules_model(out@) =~= seq![]);
    }
    while i < rules.len()
        invariant
            i <= rules@.len(),
            rs == model::entries_model(rules@),
            rules_model(out@) == lowered(rs.take(i as int)),
        decreases rules@.len() - i,
    {
        proof {
            assert(rs.take(i + 1).drop_last() =~= rs.take(i as int));
            assert(rs.take(i + 1).last() == rs[i as int]);
        }
        lower_rule(rules[i].0.as_str(), rules[i].1, &mut out);
        i += 1;
    }
    proof {
        assert(rs.take(i as int) =~= rs);
    }
    out
}

fn find_collision(
    rules: &Vec<(&String, &Production)>,
    tokens: &Vec<&GrammarToken>,
) -> (r: Option<String>)
    requires
        model::refs_model(tokens@) == model::tokens_of_rules(model::entries_model(rules@)),
    ensures
        match (r, collision(model::entries_model(rules@), 0)) {
            (Some(s), Some(sep)) => s@ == sep,
            (None, None) => true,
            _ => false,
        },
{
    let ghost rs = model::entries_model(rules@);
    let mut i: usize = 0;
    while i < rules.len()
        invariant
            i <= rules@.len(),
            rs == model::entries_model(rules@),
            model::refs_model(tokens@) == model::tokens_of_rules(rs),
            collision(rs, 0) == collision(rs, i as int),
        decreases rules@.len() - i,
    {
        proof {
            assert(rs[i as int] == (rules@[i as int].0@, rules@[i as int].1@));
        }
        if let Some(sep) = read_separator(rules[i].1) {
            if is_defined(rules, sep) || has_token(tokens, TokenType::NonTerminal, sep) {
                return Some(sep.to_owned());
            }
        }
        i += 1;
    }
    None
}

fn is_defined(rules: &Vec<(&String, &Production)>, name: &str) -> (r: bool)
    ensures
        r == model::defines(model::entries_model(rules@), name@),
{
    let ghost rs = model::entries_model(rules@);
    let mut i: usize = 0;
    while i < rules.len()
        invariant
            i <= rules@.len(),
            rs == model::entries_model(rules@),
            forall|j: int| 0 <= j < i ==> #[trigger] rs[j].0 != name@,
        decreases rules@.len() - i,
    {
        proof {
            assert(rs[i as int].0 == rules@[i as int].0@);
        }
        if same(rules[i].0.as_str(), name) {
            return true;
        }
        i += 1;
    }
    false
}

fn add_rule_symbols(b: &mut GrammarBuilder, rules: &Vec<(&String, &Production)>)
    requires
        builder_symbols(*old(b)).dom() == Set::<Seq<char>>::empty(),
    ensures
        builder_symbols(*final(b)) == rule_symbols(model::entries_model(rules@)),
        builder_rules(*final(b)) == builder_rules(*old(b)),
        builder_error(*final(b)) == builder_error(*old(b)),
{
    let ghost rs = model::entries_model(rules@);
    let ghost held = *b;
    let mut i: usize = 0;
    proof {
        assert(rs.take(0) =~= seq![]);
        assert(builder_symbols(*b) =~= Map::<Seq<char>, bool>::empty());
    }
    while i < rules.len()
        invariant
            i <= rules@.len(),
            rs == model::entries_model(rules@),
            builder_symbols(*b) == rule_symbols(rs.take(i as int)),
            builder_rules(*b) == builder_rules(held),
            builder_error(*b) == builder_error(held),
        decreases rules@.len() - i,
    {
        proof {
            assert(rs.take(i + 1).drop_last() =~= rs.take(i as int));
            assert(rs.take(i + 1).last().0 == rules@[i as int].0@);
        }
        add_nonterm(b, rules[i].0.as_str());
        i += 1;
    }
    proof {
        assert(rs.take(i as int) =~= rs);
    }
}

fn add_token_symbols(b: &mut GrammarBuilder, tokens: &Vec<&GrammarToken>)
    ensures
        builder_symbols(*final(b)) == with_terminals(
            with_nonterms(builder_symbols(*old(b)), model::refs_model(tokens@)),
            model::refs_model(tokens@),
        ),
        builder_rules(*final(b)) == builder_rules(*old(b)),
        builder_error(*final(b)) == builder_error(*old(b)),
{
    let ghost ts = model::refs_model(tokens@);
    let ghost held = *b;
    let mut i: usize = 0;
    proof {
        assert(ts.take(0) =~= seq![]);
    }
    while i < tokens.len()
        invariant
            i <= tokens@.len(),
            ts == model::refs_model(tokens@),
            builder_symbols(*b) == with_nonterms(builder_symbols(held), ts.take(i as int)),
            builder_rules(*b) == builder_rules(held),
            builder_error(*b) == builder_error(held),
        decreases tokens@.len() - i,
    {
        proof {
            assert(ts.take(i + 1).drop_last() =~= ts.take(i as int));
            assert(ts.take(i + 1).last() == tokens@[i as int]@);
        }
        if tokens[i].token_type == TokenType::NonTerminal {
            add_nonterm(b, tokens[i].text.as_str());
        }
        i += 1;
    }
    let ghost named = builder_symbols(*b);
    let mut k: usize = 0;
    proof {
        assert(ts.take(i as int) =~= ts);
    }
    while k < tokens.len()
        invariant
            k <= tokens@.len(),
            ts == model::refs_model(tokens@),
            builder_symbols(*b) == with_terminals(named, ts.take(k as int)),
            builder_rules(*b) == builder_rules(held),
            builder_error(*b) == builder_error(held),
        decreases tokens@.len() - k,
    {
        proof {
            assert(ts.take(k + 1).drop_last() =~= ts.take(k as int));
            assert(ts.take(k + 1).last() == tokens@[k as int]@);
        }
        if tokens[k].token_type != TokenType::NonTerminal {
            add_terminal(b, token_terminal_name(tokens[k]).as_str());
        }
        k += 1;
    }
    proof {
        assert(ts.take(k as int) =~= ts);
    }
}

fn add_separators(b: &mut GrammarBuilder, rules: &Vec<(&String, &Production)>)
    ensures
        builder_symbols(*final(b)) == with_separators(
            builder_symbols(*old(b)),
            model::entries_model(rules@),
        ),
        builder_rules(*final(b)) == builder_rules(*old(b)),
        builder_error(*final(b)) == builder_error(*old(b)),
{
    let ghost rs = model::entries_model(rules@);
    let ghost held = *b;
    let mut i: usize = 0;
    proof {
        assert(rs.take(0) =~= seq![]);
    }
    while i < rules.len()
        invariant
            i <= rules@.len(),
            rs == model::entries_model(rules@),
            builder_symbols(*b) == with_separators(builder_symbols(held), rs.take(i as int)),
            builder_rules(*b) == builder_rules(held),
            builder_error(*b) == builder_error(held),
        decreases rules@.len() - i,
    {
        proof {
            assert(rs.take(i + 1).drop_last() =~= rs.take(i as int));
            assert(rs.take(i + 1).last() == (rules@[i as int].0@, rules@[i as int].1@));
        }
        if let Some(sep) = read_separator(rules[i].1) {
            add_terminal(b, sep);
        }
        i += 1;
    }
    proof {
        assert(rs.take(i as int) =~= rs);
    }
}

fn add_rules(b: &mut GrammarBuilder, rules: &Vec<(String, Vec<String>)>)
    requires
        builder_rules(*old(b)).len() == 0,
        builder_error(*old(b)) is None,
        forall|i: int|
            0 <= i < rules@.len() ==> well_formed(
                builder_symbols(*old(b)),
                #[trigger] rules_model(rules@)[i],
            ),
    ensures
        builder_symbols(*final(b)) == builder_symbols(*old(b)),
        builder_rules(*final(b)) == distinct(rules_model(rules@)),
        builder_error(*final(b)) is None,
{
    let ghost rs = rules_model(rules@);
    let ghost symbols = builder_symbols(*b);
    let mut i: usize = 0;
    proof {
        assert(rs.take(0) =~= seq![]);
        assert(builder_rules(*b) =~= seq![]);
    }
    while i < rules.len()
        invariant
            i <= rules@.len(),
            rs == rules_model(rules@),
            forall|i: int| 0 <= i < rs.len() ==> well_formed(symbols, #[trigger] rs[i]),
            builder_symbols(*b) == symbols,
            builder_rules(*b) == distinct(rs.take(i as int)),
            builder_error(*b) is None,
        decreases rules@.len() - i,
    {
        proof {
            assert(rs.take(i + 1).drop_last() =~= rs.take(i as int));
            assert(rs.take(i + 1).last() == rs[i as int]);
            assert(rs[i as int] == (rules@[i as int].0@, text::views(rules@[i as int].1@)));
            assert(well_formed(symbols, rs[i as int]));
        }
        add_rule(b, rules[i].0.as_str(), &rules[i].1);
        i += 1;
    }
    proof {
        assert(rs.take(i as int) =~= rs);
    }
}

/// Whether `more` has all symbols of `symbols`, of the same kinds.
pub open spec fn extends(more: Map<Seq<char>, bool>, symbols: Map<Seq<char>, bool>) -> bool {
    forall|name: Seq<char>| #[trigger]
        symbols.dom().contains(name) ==> more.dom().contains(name) && more[name] == symbols[name]
}

proof fn lemma_rule_symbols(rules: Seq<(Seq<char>, model::RuleModel)>)
    ensures
        forall|i: int|
            0 <= i < rules.len() ==> rule_symbols(rules).dom().contains((#[trigger] rules[i]).0)
                && !rule_symbols(rules)[rules[i].0],
        forall|name: Seq<char>| #[trigger]
            rule_symbols(rules).dom().contains(name) ==> !rule_symbols(rules)[name],
    decreases rules.len(),
{
    if rules.len() > 0 {
        let front = rules.drop_last();
        lemma_rule_symbols(front);
        let before = rule_symbols(front);
        assert forall|name: Seq<char>| #[trigger]
            rule_symbols(rules).dom().contains(name) implies !rule_symbols(rules)[name] by {
            if before.dom().contains(name) {
                assert(!before[name]);
            }
        }
        assert forall|i: int| 0 <= i < rules.len() implies rule_symbols(rules).dom().contains(
            (#[trigger] rules[i]).0,
        ) && !rule_symbols(rules)[rules[i].0] by {
            if i < front.len() {
                assert(front[i] == rules[i]);
                assert(before.dom().contains(front[i].0));
            }
            assert(rule_symbols(rules).dom().contains(rules[i].0));
        }
    }
}

proof fn lemma_nonterms(symbols: Map<Seq<char>, bool>, tokens: Seq<model::TokenModel>)
    ensures
        extends(with_nonterms(symbols, tokens), symbols),
        forall|i: int|
            0 <= i < tokens.len() && (#[trigger] tokens[i]).token_type == TokenType::NonTerminal
                ==> with_nonterms(symbols, tokens).dom().contains(tokens[i].text),
    decreases tokens.len(),
{
    if tokens.len() > 0 {
        let front = tokens.drop_last();
        lemma_nonterms(symbols, front);
        assert forall|i: int|
            0 <= i < tokens.len() && (#[trigger] tokens[i]).token_type
                == TokenType::NonTerminal implies with_nonterms(symbols, tokens).dom().contains(
            tokens[i].text,
        ) by {
            if i < front.len() {
                assert(front[i] == tokens[i]);
            }
        }
    }
}

proof fn lemma_terminals(symbols: Map<Seq<char>, bool>, tokens: Seq<model::TokenModel>)
    ensures
        extends(with_terminals(symbols, tokens), symbols),
        forall|i: int|
            0 <= i < tokens.len() && (#[trigger] tokens[i]).token_type != TokenType::NonTerminal
                ==> with_terminals(symbols, tokens).dom().contains(symbol_name(tokens[i])),
    decreases tokens.len(),
{
    if tokens.len() > 0 {
        let front = tokens.drop_last();
        lemma_terminals(symbols, front);
        assert forall|i: int|
            0 <= i < tokens.len() && (#[trigger] tokens[i]).token_type
                != TokenType::NonTerminal implies with_terminals(symbols, tokens).dom().contains(
            symbol_name(tokens[i]),
        ) by {
            if i < front.len() {
                assert(front[i] == tokens[i]);
            }
        }
    }
}

proof fn lemma_separators(
    symbols: Map<Seq<char>, bool>,
    rules: Seq<(Seq<char>, model::RuleModel)>,
)
    ensures
        extends(with_separators(symbols, rules), symbols),
        forall|i: int|
            0 <= i < rules.len() && separator((#[trigger] rules[i]).1) is Some
                ==> with_separators(symbols, rules).dom().contains(
                separator(rules[i].1)->Some_0,
            ),
    decreases rules.len(),
{
    if rules.len() > 0 {
        let front = rules.drop_last();
        lemma_separators(symbols, front);
        assert forall|i: int|
            0 <= i < rules.len() && separator((#[trigger] rules[i]).1) is Some implies
        with_separators(symbols, rules).dom().contains(separator(rules[i].1)->Some_0) by {
            if i < front.len() {
                assert(front[i] == rules[i]);
            }
        }
    }
}

proof fn lemma_choice_tokens(choices: Seq<Seq<model::TokenModel>>, c: int, k: int)
    requires
        0 <= c < choices.len(),
        0 <= k < choices[c].len(),
    ensures
        model::tokens_of_choices(choices).contains(choices[c][k]),
    decreases choices.len(),
{
    let front = choices.drop_last();
    let before = model::tokens_of_choices(front);
    let all = model::tokens_of_choices(choices);
    if c < front.len() {
        lemma_choice_tokens(front, c, k);
        let i = choose|i: int| 0 <= i < before.len() && before[i] == front[c][k];
        assert(all[i] == choices[c][k]);
    } else {
        assert(all[before.len() + k] == choices[c][k]);
    }
}

proof fn lemma_rule_tokens(rules: Seq<(Seq<char>, model::RuleModel)>, r: int, c: int, k: int)
    requires
        0 <= r < rules.len(),
        0 <= c < rules[r].1.choices.len(),
        0 <= k < rules[r].1.choices[c].len(),
    ensures
        model::tokens_of_rules(rules).contains(rules[r].1.choices[c][k]),
    decreases rules.len(),
{
    let front = rules.drop_last();
    let before = model::tokens_of_rules(front);
    let all = model::tokens_of_rules(rules);
    let token = rules[r].1.choices[c][k];
    if r < front.len() {
        lemma_rule_tokens(front, r, c, k);
        let i = choose|i: int| 0 <= i < before.len() && before[i] == token;
        assert(all[i] == token);
    } else {
        let last = model::tokens_of_choices(rules[r].1.choices);
        lemma_choice_tokens(rules[r].1.choices, c, k);
        let i = choose|i: int| 0 <= i < last.len() && last[i] == token;
        assert(all[before.len() + i] == token);
    }
}

/// Every name that a rule of a grammar speaks of is a symbol of it.
proof fn lemma_symbols(rules: Seq<(Seq<char>, model::RuleModel)>, r: int)
    requires
        0 <= r < rules.len(),
    ensures
        symbols_of(rules).dom().contains(rules[r].0),
        !symbols_of(rules)[rules[r].0],
        separator(rules[r].1) matches Some(sep) ==> symbols_of(rules).dom().contains(sep),
        forall|c: int, k: int|
            0 <= c < rules[r].1.choices.len() && 0 <= k < rules[r].1.choices[c].len()
                ==> symbols_of(rules).dom().contains(
                symbol_name(#[trigger] rules[r].1.choices[c][k]),
            ),
{
    let tokens = model::tokens_of_rules(rules);
    let s1 = rule_symbols(rules);
    let s2 = with_nonterms(s1, tokens);
    let s3 = with_terminals(s2, tokens);
    let s4 = with_separators(s3, rules);
    lemma_rule_symbols(rules);
    lemma_nonterms(s1, tokens);
    lemma_terminals(s2, tokens);
    lemma_separators(s3, rules);
    let name = rules[r].0;
    assert(s1.dom().contains(name) && !s1[name]);
    assert(s2.dom().contains(name) && !s2[name]);
    assert(s3.dom().contains(name) && !s3[name]);
    assert forall|c: int, k: int|
        0 <= c < rules[r].1.choices.len() && 0 <= k
            < rules[r].1.choices[c].len() implies symbols_of(rules).dom().contains(
        symbol_name(#[trigger] rules[r].1.choices[c][k]),
    ) by {
        let token = rules[r].1.choices[c][k];
        lemma_rule_tokens(rules, r, c, k);
        let i = choose|i: int| 0 <= i < tokens.len() && tokens[i] == token;
        if tokens[i].token_type == TokenType::NonTerminal {
            assert(s2.dom().contains(token.text));
            assert(s3.dom().contains(token.text));
            assert(s4.dom().contains(token.text));
        } else {
            assert(s3.dom().contains(symbol_name(token)));
            assert(s4.dom().contains(symbol_name(token)));
        }
    }
}

proof fn lemma_lowered_choices(
    symbols: Map<Seq<char>, bool>,
    name: Seq<char>,
    rule: model::RuleModel,
    choices: Seq<Seq<model::TokenModel>>,
)
    requires
        symbols.dom().contains(name),
        !symbols[name],
        separator(rule) matches Some(sep) ==> symbols.dom().contains(sep),
        forall|c: int, k: int|
            0 <= c < choices.len() && 0 <= k < choices[c].len() ==> symbols.dom().contains(
                symbol_name(#[trigger] choices[c][k]),
            ),
    ensures
        forall|i: int|
            0 <= i < lowered_choices(name, rule, choices).len() ==> well_formed(
                symbols,
                #[trigger] lowered_choices(name, rule, choices)[i],
            ),
    decreases choices.len(),
{
    if choices.len() > 0 {
        let front = choices.drop_last();
        let before = lowered_choices(name, rule, front);
        let last = lowered_choice(name, rule, choices.last());
        assert forall|c: int, k: int|
            0 <= c < front.len() && 0 <= k < front[c].len() implies symbols.dom().contains(
            symbol_name(#[trigger] front[c][k]),
        ) by {
            assert(front[c][k] == choices[c][k]);
        }
        lemma_lowered_choices(symbols, name, rule, front);
        let side = right_side(choices.last());
        assert forall|k: int| 0 <= k < side.len() implies symbols.dom().contains(
            #[trigger] side[k],
        ) by {
            assert(symbols.dom().contains(symbol_name(choices[choices.len() - 1][k])));
        }
        assert forall|i: int| 0 <= i < last.len() implies well_formed(
            symbols,
            #[trigger] last[i],
        ) by {
            let spec = last[i].1;
            let lead = spec.len() - side.len();
            assert forall|k: int| 0 <= k < spec.len() implies symbols.dom().contains(
                #[trigger] spec[k],
            ) by {
                if k >= lead {
                    assert(spec[k] == side[k - lead]);
                }
            }
        }
        assert forall|i: int|
            0 <= i < lowered_choices(name, rule, choices).len() implies well_formed(
            symbols,
            #[trigger] lowered_choices(name, rule, choices)[i],
        ) by {
            if i < before.len() {
                assert(well_formed(symbols, before[i]));
            } else {
                assert(well_formed(symbols, last[i - before.len()]));
            }
        }
    }
}

proof fn lemma_lowered(rules: Seq<(Seq<char>, model::RuleModel)>, upto: int)
    requires
        0 <= upto <= rules.len(),
    ensures
        forall|i: int|
            0 <= i < lowered(rules.take(upto)).len() ==> well_formed(
                symbols_of(rules),
                #[trigger] lowered(rules.take(upto))[i],
            ),
    decreases upto,
{
    let symbols = symbols_of(rules);
    if upto > 0 {
        let now = rules.take(upto);
        assert(now.drop_last() =~= rules.take(upto - 1));
        lemma_lowered(rules, upto - 1);
        let (name, rule) = rules[upto - 1];
        lemma_symbols(rules, upto - 1);
        lemma_lowered_choices(symbols, name, rule, rule.choices);
        let before = lowered(now.drop_last());
        let last = lowered_rule(name, rule);
        let of_choices = lowered_choices(name, rule, rule.choices);
        assert forall|i: int| 0 <= i < last.len() implies well_formed(
            symbols,
            #[trigger] last[i],
        ) by {
            if i < of_choices.len() {
                assert(well_formed(symbols, of_choices[i]));
            }
        }
        assert forall|i: int| 0 <= i < lowered(now).len() implies well_formed(
            symbols,
            #[trigger] lowered(now)[i],
        ) by {
            if i < before.len() {
                assert(well_formed(symbols, before[i]));
            } else {
                assert(well_formed(symbols, last[i - before.len()]));
            }
        }
    }
}

/// The plain rules of a grammar speak of its symbols alone, and none has a terminal as its head:
/// lowering never makes a grammar that a parser refuses.
pub proof fn law_lowered_rules_are_well_formed(rules: Seq<(Seq<char>, model::RuleModel)>)
    ensures
        forall|i: int|
            0 <= i < lowered(rules).len() ==> well_formed(
                symbols_of(rules),
                #[trigger] lowered(rules)[i],
            ),
{
    lemma_lowered(rules, rules.len() as int);
    assert(rules.take(rules.len() as int) =~= rules);
}

/// A parser for the statements of one rule.
pub struct GrammarRecognizer {
    parser: EarleyParser,
}

impl GrammarRecognizer {
    /// The start, the symbols and the rules that the recognizer goes by.
    pub closed spec fn parts(&self) -> (
        Seq<char>,
        Map<Seq<char>, bool>,
        Seq<(Seq<char>, Seq<Seq<char>>)>,
    ) {
        parser_parts(self.parser)
    }

    /// Whether the recognizer goes by the rules, from the root.
    pub open spec fn made_for(
        &self,
        rules: Seq<(Seq<char>, model::RuleModel)>,
        root: Seq<char>,
    ) -> bool {
        self.parts() == (root, symbols_of(rules), distinct(lowered(rules)))
    }

    /// A recognizer for the statements of a rule. It is refused where the rule is not defined,
    /// or where a separator has the name of a rule, and nowhere else.
    pub fn build(grammar: &GrammarFile, root: &str) -> (r: Result<Self, String>)
        ensures
            match (r, refusal(model::rules_in(grammar.rules), root@)) {
                (Ok(recognizer), None) => recognizer.made_for(
                    model::rules_in(grammar.rules),
                    root@,
                ),
                (Err(e), Some(reason)) => e@ == reason,
                _ => false,
            },
    {
        let ghost rs = model::rules_in(grammar.rules);
        if !contains_rule(&grammar.rules, root) {
            let mut reason = "root rule '".to_owned();
            reason.append(root);
            reason.append("' not defined in grammar");
            return Err(reason);
        }
        let rules = entries(&grammar.rules);
        let tokens = all_tokens(&rules);
        if let Some(sep) = find_collision(&rules, &tokens) {
            let mut reason = "repetition separator '".to_owned();
            reason.append(sep.as_str());
            reason.append("' collides with a defined rule name");
            return Err(reason);
        }
        let mut b = new_builder();
        add_rule_symbols(&mut b, &rules);
        add_token_symbols(&mut b, &tokens);
        add_separators(&mut b, &rules);
        let plain = lower_rules(&rules);
        proof {
            law_lowered_rules_are_well_formed(rs);
            let at = choose|i: int| 0 <= i < rs.len() && #[trigger] rs[i].0 == root@;
            lemma_symbols(rs, at);
        }
        add_rules(&mut b, &plain);
        match into_parser(b, root) {
            Ok(parser) => Ok(GrammarRecognizer { parser }),
            Err(e) => {
                let mut reason = "earlgrey grammar build failed: ".to_owned();
                reason.append(e.as_str());
                Err(reason)
            },
        }
    }

    /// Whether the tokens make a statement of the rule.
    pub fn accepts(&self, tokens: &Vec<String>) -> (r: bool)
        ensures
            r == recognizes(
                self.parts().0,
                self.parts().1,
                self.parts().2,
                text::views(tokens@),
            ),
    {
        parses(&self.parser, tokens)
    }
}

/// Whether a token of a grammar derives the tokens of an input, by derivations that are `n` rules
/// deep at most: a keyword or a punctuation its own text, a class its name, and a rule what one
/// of its choices does.
pub open spec fn token_derives(
    rules: Seq<(Seq<char>, model::RuleModel)>,
    t: model::TokenModel,
    tokens: Seq<Seq<char>>,
    n: nat,
) -> bool
    decreases n, 0nat,
{
    if t.token_type != TokenType::NonTerminal {
        tokens == seq![symbol_name(t)]
    } else {
        n > 0 && exists|i: int, j: int|
            0 <= i < rules.len() && rules[i].0 == t.text && 0 <= j < rules[i].1.choices.len()
                && choice_derives(
                rules,
                #[trigger] rules[i].1.choices[j],
                tokens,
                (n - 1) as nat,
            )
    }
}

/// Whether the tokens of a choice derive the tokens of an input, one behind the other.
pub open spec fn choice_derives(
    rules: Seq<(Seq<char>, model::RuleModel)>,
    choice: Seq<model::TokenModel>,
    tokens: Seq<Seq<char>>,
    n: nat,
) -> bool
    decreases n, choice.len(),
{
    if choice.len() == 0 {
        tokens.len() == 0
    } else {
        exists|k: int|
            0 <= k <= tokens.len() && token_derives(
                rules,
                choice[0],
                #[trigger] tokens.take(k),
                n,
            ) && choice_derives(rules, choice.skip(1), tokens.skip(k), n)
    }
}

/// Whether no rule of a grammar is optional or repeated.
pub open spec fn is_plain(rules: Seq<(Seq<char>, model::RuleModel)>) -> bool {
    forall|i: int|
        0 <= i < rules.len() ==> !(#[trigger] rules[i]).1.optional && rules[i].1.repetition is None
}

/// Whether no terminal of a grammar has the name of a rule.
pub open spec fn is_apart(rules: Seq<(Seq<char>, model::RuleModel)>) -> bool {
    forall|i: int|
        0 <= i < model::tokens_of_rules(rules).len() && (#[trigger] model::tokens_of_rules(
            rules,
        )[i]).token_type != TokenType::NonTerminal ==> !names_rule(
            rules,
            symbol_name(model::tokens_of_rules(rules)[i]),
        )
}

/// Whether a token is one of the grammar's, or mentions a rule that is defined.
spec fn is_known(rules: Seq<(Seq<char>, model::RuleModel)>, t: model::TokenModel) -> bool {
    model::tokens_of_rules(rules).contains(t) || (t.token_type == TokenType::NonTerminal
        && model::defines(rules, t.text))
}

proof fn lemma_distinct(rules: Seq<(Seq<char>, Seq<Seq<char>>)>)
    ensures
        forall|r: (Seq<char>, Seq<Seq<char>>)| #[trigger]
            distinct(rules).contains(r) <==> rules.contains(r),
    decreases rules.len(),
{
    if rules.len() > 0 {
        let front = rules.drop_last();
        let last = rules.last();
        let before = distinct(front);
        lemma_distinct(front);
        assert forall|r: (Seq<char>, Seq<Seq<char>>)| #[trigger]
            distinct(rules).contains(r) <==> rules.contains(r) by {
            if rules.contains(r) {
                let i = choose|i: int| 0 <= i < rules.len() && rules[i] == r;
                if i < front.len() {
                    assert(front[i] == r);
                    assert(before.contains(r));
                    let k = choose|k: int| 0 <= k < before.len() && before[k] == r;
                    assert(distinct(rules)[k] == r);
                } else if !before.contains(last) {
                    assert(distinct(rules)[before.len() as int] == r);
                }
            }
            if distinct(rules).contains(r) {
                let k = choose|k: int| 0 <= k < distinct(rules).len() && distinct(rules)[k] == r;
                if k < before.len() {
                    assert(before[k] == r);
                    assert(before.contains(r));
                    assert(front.contains(r));
                    let i = choose|i: int| 0 <= i < front.len() && front[i] == r;
                    assert(rules[i] == r);
                } else {
                    assert(rules[rules.len() - 1] == r);
                }
            }
        }
    } else {
        assert(distinct(rules) =~= rules);
    }
}

proof fn lemma_plain_choices(
    name: Seq<char>,
    rule: model::RuleModel,
    choices: Seq<Seq<model::TokenModel>>,
)
    requires
        rule.repetition is None,
    ensures
        lowered_choices(name, rule, choices).len() == choices.len(),
        forall|j: int|
            0 <= j < choices.len() ==> #[trigger] lowered_choices(name, rule, choices)[j] == (
                name,
                right_side(choices[j]),
            ),
    decreases choices.len(),
{
    if choices.len() > 0 {
        lemma_plain_choices(name, rule, choices.drop_last());
        let before = lowered_choices(name, rule, choices.drop_last());
        assert forall|j: int| 0 <= j < choices.len() implies #[trigger] lowered_choices(
            name,
            rule,
            choices,
        )[j] == (name, right_side(choices[j])) by {
            if j < before.len() {
                assert(lowered_choices(name, rule, choices)[j] == before[j]);
                assert(choices.drop_last()[j] == choices[j]);
            }
        }
    }
}

proof fn lemma_plain_rules(rules: Seq<(Seq<char>, model::RuleModel)>)
    requires
        is_plain(rules),
    ensures
        forall|i: int, j: int|
            0 <= i < rules.len() && 0 <= j < rules[i].1.choices.len() ==> lowered(rules).contains(
                (rules[i].0, right_side(#[trigger] rules[i].1.choices[j])),
            ),
        forall|k: int|
            0 <= k < lowered(rules).len() ==> exists|i: int, j: int|
                0 <= i < rules.len() && 0 <= j < rules[i].1.choices.len() && (
                #[trigger] lowered(rules)[k]) == (
                    rules[i].0,
                    right_side(#[trigger] rules[i].1.choices[j]),
                ),
    decreases rules.len(),
{
    if rules.len() > 0 {
        let front = rules.drop_last();
        let (name, rule) = rules.last();
        let before = lowered(front);
        let after = lowered_rule(name, rule);
        let all = lowered(rules);
        assert(rules[rules.len() - 1] == (name, rule));
        assert forall|i: int| 0 <= i < front.len() implies !(#[trigger] front[i]).1.optional
            && front[i].1.repetition is None by {
            assert(front[i] == rules[i]);
        }
        lemma_plain_rules(front);
        lemma_plain_choices(name, rule, rule.choices);
        assert(all =~= before + after);
        assert forall|i: int, j: int|
            0 <= i < rules.len() && 0 <= j < rules[i].1.choices.len() implies all.contains(
            (rules[i].0, right_side(#[trigger] rules[i].1.choices[j])),
        ) by {
            let r = (rules[i].0, right_side(rules[i].1.choices[j]));
            if i < front.len() {
                assert(front[i].1.choices[j] == rules[i].1.choices[j]);
                assert(before.contains(r));
                let k = choose|k: int| 0 <= k < before.len() && before[k] == r;
                assert(all[k] == r);
            } else {
                assert(after[j] == r);
                assert(all[before.len() + j] == r);
            }
        }
        assert forall|k: int| 0 <= k < all.len() implies exists|i: int, j: int|
            0 <= i < rules.len() && 0 <= j < rules[i].1.choices.len() && (#[trigger] all[k]) == (
                rules[i].0,
                right_side(#[trigger] rules[i].1.choices[j]),
            ) by {
            if k < before.len() {
                assert(all[k] == before[k]);
                let (i, j) = choose|i: int, j: int|
                    0 <= i < front.len() && 0 <= j < front[i].1.choices.len() && before[k] == (
                        front[i].0,
                        right_side(#[trigger] front[i].1.choices[j]),
                    );
                assert(rules[i].1.choices[j] == front[i].1.choices[j]);
            } else {
                let j = k - before.len();
                assert(all[k] == after[j]);
                assert(rules[rules.len() - 1].1.choices[j] == rule.choices[j]);
            }
        }
    }
}

/// A terminal of the grammar is a terminal symbol, a mentioned rule is none.
proof fn lemma_kinds(rules: Seq<(Seq<char>, model::RuleModel)>, t: model::TokenModel)
    requires
        is_apart(rules),
        is_plain(rules),
        is_known(rules, t),
    ensures
        symbols_of(rules).dom().contains(symbol_name(t)),
        symbols_of(rules)[symbol_name(t)] == (t.token_type != TokenType::NonTerminal),
{
    let tokens = model::tokens_of_rules(rules);
    let s1 = rule_symbols(rules);
    let s2 = with_nonterms(s1, tokens);
    let s3 = with_terminals(s2, tokens);
    lemma_rule_symbols(rules);
    lemma_nonterms(s1, tokens);
    lemma_terminals(s2, tokens);
    lemma_separators(s3, rules);
    if t.token_type == TokenType::NonTerminal {
        if tokens.contains(t) {
            let i = choose|i: int| 0 <= i < tokens.len() && tokens[i] == t;
            assert(s2.dom().contains(tokens[i].text));
            lemma_nonterm_flags(s1, tokens);
            lemma_rule_flags(rules);
            assert(!s2[t.text]);
        } else {
            let i = choose|i: int| 0 <= i < rules.len() && #[trigger] rules[i].0 == t.text;
            assert(s1.dom().contains(rules[i].0) && !s1[rules[i].0]);
            assert(s2.dom().contains(t.text) && !s2[t.text]);
        }
        assert(s3.dom().contains(t.text) && !s3[t.text]);
    } else {
        let i = choose|i: int| 0 <= i < tokens.len() && tokens[i] == t;
        assert(!names_rule(rules, symbol_name(tokens[i])));
        lemma_no_rule_symbol(rules, symbol_name(t));
        lemma_no_nonterm(s1, tokens, symbol_name(t));
        assert(!s2.dom().contains(symbol_name(t)));
        lemma_terminal_flag(s2, tokens, symbol_name(t));
        assert(s3.dom().contains(symbol_name(tokens[i])));
    }
}

proof fn lemma_rule_flags(rules: Seq<(Seq<char>, model::RuleModel)>)
    ensures
        forall|x: Seq<char>| #[trigger] rule_symbols(rules).dom().contains(x) ==> !rule_symbols(
            rules,
        )[x],
    decreases rules.len(),
{
    if rules.len() > 0 {
        let before = rule_symbols(rules.drop_last());
        lemma_rule_flags(rules.drop_last());
        assert forall|x: Seq<char>| #[trigger]
            rule_symbols(rules).dom().contains(x) implies !rule_symbols(rules)[x] by {
            if before.dom().contains(x) {
                assert(!before[x]);
            }
        }
    }
}

proof fn lemma_nonterm_flags(symbols: Map<Seq<char>, bool>, tokens: Seq<model::TokenModel>)
    requires
        forall|x: Seq<char>| #[trigger] symbols.dom().contains(x) ==> !symbols[x],
    ensures
        forall|x: Seq<char>| #[trigger]
            with_nonterms(symbols, tokens).dom().contains(x) ==> !with_nonterms(symbols, tokens)[x],
    decreases tokens.len(),
{
    if tokens.len() > 0 {
        let before = with_nonterms(symbols, tokens.drop_last());
        lemma_nonterm_flags(symbols, tokens.drop_last());
        assert forall|x: Seq<char>| #[trigger]
            with_nonterms(symbols, tokens).dom().contains(x) implies !with_nonterms(
            symbols,
            tokens,
        )[x] by {
            if before.dom().contains(x) {
                assert(!before[x]);
            }
        }
    }
}

proof fn lemma_no_rule_symbol(rules: Seq<(Seq<char>, model::RuleModel)>, x: Seq<char>)
    requires
        !model::defines(rules, x),
    ensures
        !rule_symbols(rules).dom().contains(x),
    decreases rules.len(),
{
    if rules.len() > 0 {
        let front = rules.drop_last();
        assert(rules[rules.len() - 1].0 != x);
        if model::defines(front, x) {
            let i = choose|i: int| 0 <= i < front.len() && #[trigger] front[i].0 == x;
            assert(rules[i].0 == x);
        }
        lemma_no_rule_symbol(front, x);
    }
}

proof fn lemma_no_nonterm(
    symbols: Map<Seq<char>, bool>,
    tokens: Seq<model::TokenModel>,
    x: Seq<char>,
)
    requires
        !symbols.dom().contains(x),
        !model::mentions(tokens, TokenType::NonTerminal, x),
    ensures
        !with_nonterms(symbols, tokens).dom().contains(x),
    decreases tokens.len(),
{
    if tokens.len() > 0 {
        let front = tokens.drop_last();
        assert(!(tokens[tokens.len() - 1].text == x && tokens[tokens.len() - 1].token_type
            == TokenType::NonTerminal));
        if model::mentions(front, TokenType::NonTerminal, x) {
            let i = choose|i: int|
                0 <= i < front.len() && #[trigger] front[i].text == x && front[i].token_type
                    == TokenType::NonTerminal;
            assert(tokens[i].text == x);
        }
        lemma_no_nonterm(symbols, front, x);
    }
}

proof fn lemma_terminal_flag(
    symbols: Map<Seq<char>, bool>,
    tokens: Seq<model::TokenModel>,
    x: Seq<char>,
)
    requires
        !symbols.dom().contains(x),
    ensures
        with_terminals(symbols, tokens).dom().contains(x) ==> with_terminals(symbols, tokens)[x],
    decreases tokens.len(),
{
    if tokens.len() > 0 {
        lemma_terminal_flag(symbols, tokens.drop_last(), x);
    }
}

proof fn lemma_same_derivations(
    rules: Seq<(Seq<char>, model::RuleModel)>,
    t: model::TokenModel,
    tokens: Seq<Seq<char>>,
    n: nat,
)
    requires
        is_plain(rules),
        is_apart(rules),
        is_known(rules, t),
    ensures
        derives_within(symbols_of(rules), distinct(lowered(rules)), symbol_name(t), tokens, n)
            == token_derives(rules, t, tokens, n),
    decreases n, 0nat,
{
    let symbols = symbols_of(rules);
    let plain = distinct(lowered(rules));
    lemma_kinds(rules, t);
    if t.token_type == TokenType::NonTerminal && n > 0 {
        let m = (n - 1) as nat;
        lemma_distinct(lowered(rules));
        lemma_plain_rules(rules);
        assert forall|i: int, j: int|
            0 <= i < rules.len() && 0 <= j < rules[i].1.choices.len() implies side_derives(
            symbols,
            plain,
            right_side(#[trigger] rules[i].1.choices[j]),
            tokens,
            m,
        ) == choice_derives(rules, rules[i].1.choices[j], tokens, m) by {
            let choice = rules[i].1.choices[j];
            assert forall|k: int| 0 <= k < choice.len() implies is_known(
                rules,
                #[trigger] choice[k],
            ) by {
                lemma_rule_tokens(rules, i, j, k);
            }
            lemma_same_sides(rules, choice, tokens, m);
        }
        if token_derives(rules, t, tokens, n) {
            let (i, j) = choose|i: int, j: int|
                0 <= i < rules.len() && rules[i].0 == t.text && 0 <= j
                    < rules[i].1.choices.len() && choice_derives(
                    rules,
                    #[trigger] rules[i].1.choices[j],
                    tokens,
                    m,
                );
            let r = (rules[i].0, right_side(rules[i].1.choices[j]));
            assert(lowered(rules).contains(r));
            assert(plain.contains(r));
            let k = choose|k: int| 0 <= k < plain.len() && plain[k] == r;
            assert(plain[k].0 == t.text);
        }
        if derives_within(symbols, plain, t.text, tokens, n) {
            let k = choose|k: int|
                0 <= k < plain.len() && (#[trigger] plain[k]).0 == t.text && side_derives(
                    symbols,
                    plain,
                    plain[k].1,
                    tokens,
                    m,
                );
            assert(plain.contains(plain[k]));
            assert(lowered(rules).contains(plain[k]));
            let l = choose|l: int| 0 <= l < lowered(rules).len() && lowered(rules)[l] == plain[k];
            let (i, j) = choose|i: int, j: int|
                0 <= i < rules.len() && 0 <= j < rules[i].1.choices.len() && lowered(rules)[l] == (
                    rules[i].0,
                    right_side(#[trigger] rules[i].1.choices[j]),
                );
            assert(choice_derives(rules, rules[i].1.choices[j], tokens, m));
        }
    }
}

proof fn lemma_same_sides(
    rules: Seq<(Seq<char>, model::RuleModel)>,
    choice: Seq<model::TokenModel>,
    tokens: Seq<Seq<char>>,
    n: nat,
)
    requires
        is_plain(rules),
        is_apart(rules),
        forall|k: int| 0 <= k < choice.len() ==> is_known(rules, #[trigger] choice[k]),
    ensures
        side_derives(
            symbols_of(rules),
            distinct(lowered(rules)),
            right_side(choice),
            tokens,
            n,
        ) == choice_derives(rules, choice, tokens, n),
    decreases n, choice.len() + 1,
{
    let symbols = symbols_of(rules);
    let plain = distinct(lowered(rules));
    if choice.len() > 0 {
        let rest = choice.skip(1);
        let side = right_side(choice);
        assert(is_known(rules, choice[0]));
        assert(side[0] == symbol_name(choice[0]));
        assert(side.skip(1) =~= right_side(rest));
        assert forall|k: int| 0 <= k < rest.len() implies is_known(rules, #[trigger] rest[k]) by {
            assert(rest[k] == choice[k + 1]);
        }
        assert forall|k: int| 0 <= k <= tokens.len() implies derives_within(
            symbols,
            plain,
            side[0],
            #[trigger] tokens.take(k),
            n,
        ) == token_derives(rules, choice[0], tokens.take(k), n) && side_derives(
            symbols,
            plain,
            side.skip(1),
            tokens.skip(k),
            n,
        ) == choice_derives(rules, rest, tokens.skip(k), n) by {
            lemma_same_derivations(rules, choice[0], tokens.take(k), n);
            lemma_same_sides(rules, rest, tokens.skip(k), n);
        }
        if side_derives(symbols, plain, side, tokens, n) {
            let k = choose|k: int|
                0 <= k <= tokens.len() && derives_within(
                    symbols,
                    plain,
                    side[0],
                    #[trigger] tokens.take(k),
                    n,
                ) && side_derives(symbols, plain, side.skip(1), tokens.skip(k), n);
            assert(token_derives(rules, choice[0], tokens.take(k), n));
        }
        if choice_derives(rules, choice, tokens, n) {
            let k = choose|k: int|
                0 <= k <= tokens.len() && token_derives(
                    rules,
                    choice[0],
                    #[trigger] tokens.take(k),
                    n,
                ) && choice_derives(rules, rest, tokens.skip(k), n);
            assert(derives_within(symbols, plain, side[0], tokens.take(k), n));
        }
    }
}

/// A recognizer accepts what the choices of its grammar derive from its root, and nothing else:
/// in a grammar without optional and repeated rules, and without a terminal of a rule's name.
pub proof fn law_accepted_tokens_are_derived(
    rules: Seq<(Seq<char>, model::RuleModel)>,
    root: Seq<char>,
    tokens: Seq<Seq<char>>,
)
    requires
        is_plain(rules),
        is_apart(rules),
        model::defines(rules, root),
    ensures
        derives(rules, root, tokens) <==> exists|n: nat| #[trigger]
            token_derives(
                rules,
                (model::TokenModel { text: root, token_type: TokenType::NonTerminal }),
                tokens,
                n,
            ),
{
    let t = model::TokenModel { text: root, token_type: TokenType::NonTerminal };
    let symbols = symbols_of(rules);
    let plain = distinct(lowered(rules));
    assert forall|n: nat| #[trigger] derives_within(symbols, plain, root, tokens, n)
        == token_derives(rules, t, tokens, n) by {
        lemma_same_derivations(rules, t, tokens, n);
    }
    if derives(rules, root, tokens) {
        let n = choose|n: nat| #[trigger] derives_within(symbols, plain, root, tokens, n);
        assert(token_derives(rules, t, tokens, n));
    }
    if exists|n: nat| #[trigger] token_derives(rules, t, tokens, n) {
        let n = choose|n: nat| #[trigger] token_derives(rules, t, tokens, n);
        assert(derives_within(symbols, plain, root, tokens, n));
    }
}

} // verus!
