//! A grammar: named rules, each a choice of token sequences.

use indexmap::IndexMap;
use vstd::prelude::*;

use crate::text::{self, same};

verus! {

#[verifier::external_type_specification]
#[verifier::external_body]
#[verifier::reject_recursive_types(K)]
#[verifier::reject_recursive_types(V)]
#[verifier::reject_recursive_types(S)]
pub struct ExIndexMap<K, V, S>(indexmap::IndexMap<K, V, S>);

/// What a token of a rule stands for.
#[derive(Debug, Clone, Copy, PartialEq, Eq, Structural)]
pub enum TokenType {
    /// A keyword, as it is written.
    Terminal,
    /// Another rule, by its name.
    NonTerminal,
    /// Punctuation, as it is written.
    Quoted,
    /// A class of lexemes, by its name.
    CharClass,
}

/// One token of a rule.
#[derive(Debug, Clone)]
pub struct GrammarToken {
    pub text: String,
    pub token_type: TokenType,
}

/// One rule.
#[derive(Debug, Clone)]
pub struct Production {
    pub choices: Vec<Vec<GrammarToken>>,
    /// Whether the rule may match nothing.
    pub optional: bool,
    /// The separator of a repetition, empty where its items stand side by side; `None` where
    /// nothing repeats.
    pub repetition: Option<String>,
}

/// The rules of a grammar by their names, in the order of the file that they come from.
#[derive(Debug)]
pub struct GrammarFile {
    pub rules: IndexMap<String, Production>,
    /// The rule that the file declares as its root. Statements are recognized from the
    /// statement rules instead.
    pub root: String,
}

/// The model of a [`GrammarToken`].
pub ghost struct TokenModel {
    pub text: Seq<char>,
    pub token_type: TokenType,
}

/// The model of a [`Production`].
pub ghost struct RuleModel {
    pub choices: Seq<Seq<TokenModel>>,
    pub optional: bool,
    pub repetition: Option<Seq<char>>,
}

impl View for GrammarToken {
    type V = TokenModel;

    open spec fn view(&self) -> TokenModel {
        TokenModel { text: self.text@, token_type: self.token_type }
    }
}

/// The models of the tokens of one choice.
pub open spec fn choice_model(choice: Seq<GrammarToken>) -> Seq<TokenModel> {
    choice.map_values(|t: GrammarToken| t@)
}

/// The models of the choices of a rule.
pub open spec fn choices_model(choices: Seq<Vec<GrammarToken>>) -> Seq<Seq<TokenModel>> {
    choices.map_values(|c: Vec<GrammarToken>| choice_model(c@))
}

impl View for Production {
    type V = RuleModel;

    open spec fn view(&self) -> RuleModel {
        RuleModel {
            choices: choices_model(self.choices@),
            optional: self.optional,
            repetition: match self.repetition {
                Some(sep) => Some(sep@),
                None => None,
            },
        }
    }
}

/// What a map of rules holds: each name with its rule, in the order of insertion.
pub uninterp spec fn rules_in(rules: IndexMap<String, Production>) -> Seq<(Seq<char>, RuleModel)>;

/// The models of names with their rules.
pub open spec fn entries_model(entries: Seq<(&String, &Production)>) -> Seq<
    (Seq<char>, RuleModel),
> {
    entries.map_values(|e: (&String, &Production)| (e.0@, e.1@))
}

/// `IndexMap::iter`, collected: the names with their rules, in the order of insertion. No name
/// comes twice.
#[verifier::external_body]
pub(crate) fn entries<'a>(rules: &'a IndexMap<String, Production>) -> (r: Vec<
    (&'a String, &'a Production),
>)
    ensures
        entries_model(r@) == rules_in(*rules),
        forall|i: int, j: int|
            0 <= i < j < r@.len() ==> (#[trigger] r@[i]).0@ != (#[trigger] r@[j]).0@,
{
    rules.iter().collect()
}

/// Whether a rule of that name is defined.
pub open spec fn defines(rules: Seq<(Seq<char>, RuleModel)>, name: Seq<char>) -> bool {
    exists|i: int| 0 <= i < rules.len() && #[trigger] rules[i].0 == name
}

/// `IndexMap::contains_key`.
#[verifier::external_body]
pub(crate) fn contains_rule(rules: &IndexMap<String, Production>, name: &str) -> (r: bool)
    ensures
        r == defines(rules_in(*rules), name@),
{
    rules.contains_key(name)
}

/// The tokens of a rule's choices, one choice after the other.
pub open spec fn tokens_of_choices(choices: Seq<Seq<TokenModel>>) -> Seq<TokenModel>
    decreases choices.len(),
{
    if choices.len() == 0 {
        seq![]
    } else {
        tokens_of_choices(choices.drop_last()) + choices.last()
    }
}

/// The tokens of all rules, one rule after the other.
pub open spec fn tokens_of_rules(rules: Seq<(Seq<char>, RuleModel)>) -> Seq<TokenModel>
    decreases rules.len(),
{
    if rules.len() == 0 {
        seq![]
    } else {
        tokens_of_rules(rules.drop_last()) + tokens_of_choices(rules.last().1.choices)
    }
}

/// The models of tokens.
pub open spec fn refs_model(tokens: Seq<&GrammarToken>) -> Seq<TokenModel> {
    tokens.map_values(|t: &GrammarToken| t@)
}

fn push_choice<'a>(choice: &'a Vec<GrammarToken>, out: &mut Vec<&'a GrammarToken>)
    ensures
        refs_model(final(out)@) == refs_model(old(out)@) + choice_model(choice@),
{
    let ghost held = refs_model(out@);
    let ghost ts = choice_model(choice@);
    let mut i: usize = 0;
    proof {
        assert(held + ts.take(0) =~= held);
    }
    while i < choice.len()
        invariant
            i <= choice@.len(),
            ts == choice_model(choice@),
            refs_model(out@) == held + ts.take(i as int),
        decreases choice@.len() - i,
    {
        let ghost before = out@;
        out.push(&choice[i]);
        proof {
            assert(refs_model(out@) =~= refs_model(before).push(ts[i as int]));
            assert(held + ts.take(i + 1) =~= (held + ts.take(i as int)).push(ts[i as int]));
        }
        i += 1;
    }
    proof {
        assert(ts.take(i as int) =~= ts);
    }
}

fn push_choices<'a>(choices: &'a Vec<Vec<GrammarToken>>, out: &mut Vec<&'a GrammarToken>)
    ensures
        refs_model(final(out)@) == refs_model(old(out)@) + tokens_of_choices(
            choices_model(choices@),
        ),
{
    let ghost held = refs_model(out@);
    let ghost cs = choices_model(choices@);
    let mut i: usize = 0;
    proof {
        assert(cs.take(0) =~= seq![]);
        assert(held + tokens_of_choices(cs.take(0)) =~= held);
    }
    while i < choices.len()
        invariant
            i <= choices@.len(),
            cs == choices_model(choices@),
            refs_model(out@) == held + tokens_of_choices(cs.take(i as int)),
        decreases choices@.len() - i,
    {
        proof {
            assert(cs.take(i + 1).drop_last() =~= cs.take(i as int));
            assert(cs.take(i + 1).last() == choice_model(choices@[i as int]@));
            assert(held + tokens_of_choices(cs.take(i + 1)) =~= (held + tokens_of_choices(
                cs.take(i as int),
            )) + cs[i as int]);
        }
        push_choice(&choices[i], out);
        i += 1;
    }
    proof {
        assert(cs.take(i as int) =~= cs);
    }
}

/// The tokens of all rules, one rule after the other.
pub fn all_tokens<'a>(rules: &Vec<(&'a String, &'a Production)>) -> (r: Vec<
    &'a GrammarToken,
>)
    ensures
        refs_model(r@) == tokens_of_rules(entries_model(rules@)),
{
    let ghost rs = entries_model(rules@);
    let mut out: Vec<&'a GrammarToken> = Vec::new();
    let mut i: usize = 0;
    proof {
        assert(rs.take(0) =~= seq![]);
        assert(refs_model(out@) =~= seq![]);
    }
    while i < rules.len()
        invariant
            i <= rules@.len(),
            rs == entries_model(rules@),
            refs_model(out@) == tokens_of_rules(rs.take(i as int)),
        decreases rules@.len() - i,
    {
        proof {
            assert(rs.take(i + 1).drop_last() =~= rs.take(i as int));
            assert(rs.take(i + 1).last() == rs[i as int]);
        }
        push_choices(&rules[i].1.choices, &mut out);
        i += 1;
    }
    proof {
        assert(rs.take(i as int) =~= rs);
    }
    out
}

/// Whether a token of the given type spells the text.
pub open spec fn mentions(
    tokens: Seq<TokenModel>,
    token_type: TokenType,
    text: Seq<char>,
) -> bool {
    exists|i: int|
        0 <= i < tokens.len() && #[trigger] tokens[i].text == text && tokens[i].token_type
            == token_type
}

/// Whether a token of the given type spells the text.
pub fn has_token(tokens: &Vec<&GrammarToken>, token_type: TokenType, text: &str) -> (r: bool)
    ensures
        r == mentions(refs_model(tokens@), token_type, text@),
{
    let ghost ts = refs_model(tokens@);
    let mut i: usize = 0;
    while i < tokens.len()
        invariant
            i <= tokens@.len(),
            ts == refs_model(tokens@),
            forall|j: int|
                0 <= j < i ==> !(#[trigger] ts[j].text == text@ && ts[j].token_type
                    == token_type),
        decreases tokens@.len() - i,
    {
        proof {
            assert(ts[i as int] == tokens@[i as int]@);
        }
        if tokens[i].token_type == token_type && same(tokens[i].text.as_str(), text) {
            proof {
                assert(ts[i as int].text == text@);
            }
            return true;
        }
        i += 1;
    }
    false
}

} // verus!
