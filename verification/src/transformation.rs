//! Transformations: each one derives a family of CSS rules from token groups
//! or from families derived before it. `Intermediate::build` applies them in
//! order, and `Intermediate::stringify` writes the result out as CSS.

use vstd::prelude::*;
use crate::css::{
    CSSRule, Declarations, RuleModel, declare_all, declare_into, inject, inject_variables, lemma_declare_all_sorted,
    render_rules, rules_sorted, rules_text,
};
use crate::strmap::{
    StrMap, first_index, has_key, insert_sorted, lookup, lemma_first_index, lemma_first_index_at, lemma_insert_lookup,
    lemma_insert_sorted, lemma_insert_sorted_values, sorted_keys,
};
use crate::text::{replace, replace_all, replace_first, replace_once};

verus! {

/// Derives one rule: its declarations are those of the transformation,
/// repeated for every token of the named group.
pub struct FromTokenGroup {
    pub id: String,
    pub description: String,
    pub token_group_name: String,
    pub selector: String,
    pub declarations: Declarations,
}

/// Derives, from each of its rules, one rule for every token of the named
/// group.
pub struct ManyRulesFromTokenGroup {
    pub id: String,
    pub description: String,
    pub token_group_name: String,
    pub rules: Vec<CSSRule>,
}

/// Copies the rules of earlier families under a new selector, into an at-rule
/// block where an identifier is given.
pub struct CopyExistingRules {
    pub id: String,
    pub description: String,
    pub affected_ids: Vec<String>,
    pub at_rule_identifier: Option<String>,
    pub new_selector: String,
}

/// Takes its rules as they are, into an at-rule block where an identifier is
/// given.
pub struct NoTransformation {
    pub id: String,
    pub description: String,
    pub at_rule_identifier: Option<String>,
    pub rules: Vec<CSSRule>,
}

/// One step of building the rules.
pub enum Transformation {
    SingleRuleFromTokenGroup(FromTokenGroup),
    ManyRulesFromTokenGroup(ManyRulesFromTokenGroup),
    CopyExistingRules(CopyExistingRules),
    NoTransformation(NoTransformation),
}

/// A token group: token key to token value.
pub type TokenGroup = StrMap<String>;

/// Token groups by name.
pub type TokenGroups = StrMap<TokenGroup>;

/// Transformations, in the order they apply.
pub type Transformations = Vec<Transformation>;

/// What a transformation says.
pub enum TransformationModel {
    Single {
        id: Seq<char>,
        description: Seq<char>,
        group: Seq<char>,
        selector: Seq<char>,
        declarations: Seq<(Seq<char>, Seq<char>)>,
    },
    Many { id: Seq<char>, description: Seq<char>, group: Seq<char>, rules: Seq<RuleModel> },
    Copy {
        id: Seq<char>,
        description: Seq<char>,
        affected_ids: Seq<Seq<char>>,
        at_rule: Option<Seq<char>>,
        new_selector: Seq<char>,
    },
    Plain { id: Seq<char>, description: Seq<char>, at_rule: Option<Seq<char>>, rules: Seq<RuleModel> },
}

impl FromTokenGroup {
    /// What this transformation says.
    pub open spec fn model(&self) -> TransformationModel {
        TransformationModel::Single {
            id: self.id@,
            description: self.description@,
            group: self.token_group_name@,
            selector: self.selector@,
            declarations: self.declarations@,
        }
    }
}

impl ManyRulesFromTokenGroup {
    /// What this transformation says.
    pub open spec fn model(&self) -> TransformationModel {
        TransformationModel::Many {
            id: self.id@,
            description: self.description@,
            group: self.token_group_name@,
            rules: self.rules.deep_view(),
        }
    }
}

impl CopyExistingRules {
    /// What this transformation says.
    pub open spec fn model(&self) -> TransformationModel {
        TransformationModel::Copy {
            id: self.id@,
            description: self.description@,
            affected_ids: self.affected_ids.deep_view(),
            at_rule: self.at_rule_identifier.deep_view(),
            new_selector: self.new_selector@,
        }
    }
}

impl NoTransformation {
    /// What this transformation says.
    pub open spec fn model(&self) -> TransformationModel {
        TransformationModel::Plain {
            id: self.id@,
            description: self.description@,
            at_rule: self.at_rule_identifier.deep_view(),
            rules: self.rules.deep_view(),
        }
    }
}

impl DeepView for Transformation {
    type V = TransformationModel;

    open spec fn deep_view(&self) -> TransformationModel {
        match self {
            Transformation::SingleRuleFromTokenGroup(t) => t.model(),
            Transformation::ManyRulesFromTokenGroup(t) => t.model(),
            Transformation::CopyExistingRules(t) => t.model(),
            Transformation::NoTransformation(t) => t.model(),
        }
    }
}

/// The rules one transformation derived.
pub struct RuleFamily {
    pub description: String,
    pub css_rules: Vec<CSSRule>,
}

/// Rules that stand inside an at-rule block such as a media query.
pub struct AtRule {
    pub identifier: String,
    pub description: String,
    pub css_rules: Vec<CSSRule>,
}

/// What a rule family is.
pub struct FamilyModel {
    pub description: Seq<char>,
    pub rules: Seq<RuleModel>,
}

/// What an at-rule block is.
pub struct AtRuleModel {
    pub identifier: Seq<char>,
    pub description: Seq<char>,
    pub rules: Seq<RuleModel>,
}

impl DeepView for RuleFamily {
    type V = FamilyModel;

    open spec fn deep_view(&self) -> FamilyModel {
        FamilyModel { description: self.description@, rules: self.css_rules.deep_view() }
    }
}

impl DeepView for AtRule {
    type V = AtRuleModel;

    open spec fn deep_view(&self) -> AtRuleModel {
        AtRuleModel { identifier: self.identifier@, description: self.description@, rules: self.css_rules.deep_view() }
    }
}

/// The rule families and at-rule blocks built so far, each under the id of
/// the transformation that made it.
pub struct Intermediate {
    pub normal_rules: StrMap<RuleFamily>,
    pub at_rules: StrMap<AtRule>,
}

/// What an intermediate is.
pub struct IntermediateModel {
    pub normal: Seq<(Seq<char>, FamilyModel)>,
    pub at: Seq<(Seq<char>, AtRuleModel)>,
}

impl View for Intermediate {
    type V = IntermediateModel;

    open spec fn view(&self) -> IntermediateModel {
        IntermediateModel { normal: self.normal_rules@, at: self.at_rules@ }
    }
}

/// The token groups as a sequence of (name, tokens).
pub type GroupsModel = Seq<(Seq<char>, Seq<(Seq<char>, Seq<char>)>)>;

/// The message for a token group that does not exist.
pub open spec fn missing_map_message(name: Seq<char>) -> Seq<char> {
    "There is no input group named \""@ + name + "\""@
}

/// The message for a transformation id that names no family.
pub open spec fn missing_transformation_message(description: Seq<char>, id: Seq<char>) -> Seq<char> {
    description + ": There is no transformation named "@ + id
}

/// The message given when `token_group_name` names no token group.
pub fn err_msg_for_missing_map(token_group_name: &str) -> (msg: String)
    ensures
        msg@ == missing_map_message(token_group_name@),
{
    let mut msg = String::new();
    msg.append("There is no input group named \"");
    msg.append(token_group_name);
    msg.append("\"");
    msg
}

/// The message given when `id`, affected by the transformation described by
/// `description`, names no rule family.
pub fn err_msg_for_missing_transformation(description: &str, id: &str) -> (msg: String)
    ensures
        msg@ == missing_transformation_message(description@, id@),
{
    let mut msg = String::new();
    msg.append(description);
    msg.append(": There is no transformation named ");
    msg.append(id);
    msg
}

/// The declarations of the single rule: those of `decls`, for each token of
/// `group` in order.
pub open spec fn declare_for_group(
    group: Seq<(Seq<char>, Seq<char>)>,
    decls: Seq<(Seq<char>, Seq<char>)>,
) -> Seq<(Seq<char>, Seq<char>)>
    decreases group.len(),
{
    if group.len() == 0 {
        Seq::empty()
    } else {
        declare_all(declare_for_group(group.drop_last(), decls), decls, group.last().0, group.last().1)
    }
}

/// The rules that one rule makes for the tokens of `group`: one per token.
pub open spec fn rules_for_tokens(r: RuleModel, group: Seq<(Seq<char>, Seq<char>)>) -> Seq<RuleModel> {
    Seq::new(
        group.len(),
        |j: int|
            RuleModel {
                selector: inject(r.selector, group[j].0, group[j].1),
                declarations: declare_all(Seq::empty(), r.declarations, group[j].0, group[j].1),
            },
    )
}

/// The rules that `rules` make for the tokens of `group`, rule by rule.
pub open spec fn many_rules(rules: Seq<RuleModel>, group: Seq<(Seq<char>, Seq<char>)>) -> Seq<RuleModel>
    decreases rules.len(),
{
    if rules.len() == 0 {
        Seq::empty()
    } else {
        many_rules(rules.drop_last(), group) + rules_for_tokens(rules.last(), group)
    }
}

/// The selector of a copied rule: `new_selector` with the old selector, less
/// its first `.`, in place of `{{ PREV_SELECTOR_CLASS_NAME }}`, then the old
/// selector in place of `{{ PREV_SELECTOR }}`.
pub open spec fn copied_selector(new_selector: Seq<char>, prev: Seq<char>) -> Seq<char> {
    replace_all(
        replace_all(new_selector, "{{ PREV_SELECTOR_CLASS_NAME }}"@, replace_first(prev, "."@, ""@)),
        "{{ PREV_SELECTOR }}"@,
        prev,
    )
}

/// A rule copied under a new selector; its declarations stay.
pub open spec fn copy_rule(r: RuleModel, new_selector: Seq<char>) -> RuleModel {
    RuleModel { selector: copied_selector(new_selector, r.selector), declarations: r.declarations }
}

/// The copies of the rules of the families named by `ids`, family by family.
pub open spec fn copied_rules(
    normal: Seq<(Seq<char>, FamilyModel)>,
    ids: Seq<Seq<char>>,
    new_selector: Seq<char>,
) -> Seq<RuleModel>
    decreases ids.len(),
{
    if ids.len() == 0 {
        Seq::empty()
    } else {
        copied_rules(normal, ids.drop_last(), new_selector) + lookup(normal, ids.last())->0.rules.map_values(
            |r: RuleModel| copy_rule(r, new_selector),
        )
    }
}

/// Stores rules under `id`: in an at-rule block where `at_rule` names one,
/// else as a family.
pub open spec fn store_rules(
    m: IntermediateModel,
    id: Seq<char>,
    description: Seq<char>,
    at_rule: Option<Seq<char>>,
    rules: Seq<RuleModel>,
) -> IntermediateModel {
    match at_rule {
        Some(identifier) => IntermediateModel {
            normal: m.normal,
            at: insert_sorted(m.at, id, AtRuleModel { identifier, description, rules }),
        },
        None => IntermediateModel {
            normal: insert_sorted(m.normal, id, FamilyModel { description, rules }),
            at: m.at,
        },
    }
}

/// Whether `t` can apply: the token group it reads exists, and so do the
/// families it copies.
pub open spec fn step_ok(m: IntermediateModel, groups: GroupsModel, t: TransformationModel) -> bool {
    match t {
        TransformationModel::Single { group, .. } => has_key(groups, group),
        TransformationModel::Many { group, .. } => has_key(groups, group),
        TransformationModel::Copy { affected_ids, .. } => all_present(m.normal, affected_ids),
        TransformationModel::Plain { .. } => true,
    }
}

/// Every id of `ids` names a family of `normal`.
pub open spec fn all_present(normal: Seq<(Seq<char>, FamilyModel)>, ids: Seq<Seq<char>>) -> bool {
    forall|i: int| 0 <= i < ids.len() ==> has_key(normal, #[trigger] ids[i])
}

/// The first of `ids` that names no family.
pub open spec fn first_missing(normal: Seq<(Seq<char>, FamilyModel)>, ids: Seq<Seq<char>>) -> Seq<char>
    decreases ids.len(),
{
    if ids.len() == 0 {
        Seq::empty()
    } else if !has_key(normal, ids[0]) {
        ids[0]
    } else {
        first_missing(normal, ids.drop_first())
    }
}

/// The message for a transformation that cannot apply.
pub open spec fn step_error(m: IntermediateModel, t: TransformationModel) -> Seq<char> {
    match t {
        TransformationModel::Single { group, .. } => missing_map_message(group),
        TransformationModel::Many { group, .. } => missing_map_message(group),
        TransformationModel::Copy { description, affected_ids, .. } => missing_transformation_message(
            description,
            first_missing(m.normal, affected_ids),
        ),
        TransformationModel::Plain { .. } => Seq::empty(),
    }
}

/// What applying `t` makes of `m`.
pub open spec fn apply(m: IntermediateModel, groups: GroupsModel, t: TransformationModel) -> IntermediateModel {
    match t {
        TransformationModel::Single { id, description, group, selector, declarations } => store_rules(
            m,
            id,
            description,
            None,
            seq![RuleModel { selector, declarations: declare_for_group(lookup(groups, group)->0, declarations) }],
        ),
        TransformationModel::Many { id, description, group, rules } => store_rules(
            m,
            id,
            description,
            None,
            many_rules(rules, lookup(groups, group)->0),
        ),
        TransformationModel::Copy { id, description, affected_ids, at_rule, new_selector } => store_rules(
            m,
            id,
            description,
            at_rule,
            copied_rules(m.normal, affected_ids, new_selector),
        ),
        TransformationModel::Plain { id, description, at_rule, rules } => store_rules(
            m,
            id,
            description,
            at_rule,
            rules,
        ),
    }
}

/// An intermediate with nothing in it.
pub open spec fn empty_model() -> IntermediateModel {
    IntermediateModel { normal: Seq::empty(), at: Seq::empty() }
}

/// What applying `ts` in order to an empty intermediate makes.
pub open spec fn build_model(groups: GroupsModel, ts: Seq<TransformationModel>) -> IntermediateModel
    decreases ts.len(),
{
    if ts.len() == 0 {
        empty_model()
    } else {
        apply(build_model(groups, ts.drop_last()), groups, ts.last())
    }
}

/// Every transformation of `ts` can apply when its turn comes.
pub open spec fn buildable(groups: GroupsModel, ts: Seq<TransformationModel>) -> bool
    decreases ts.len(),
{
    ts.len() == 0 || (buildable(groups, ts.drop_last()) && step_ok(
        build_model(groups, ts.drop_last()),
        groups,
        ts.last(),
    ))
}

/// The message for the first transformation of `ts` that cannot apply.
pub open spec fn build_error(groups: GroupsModel, ts: Seq<TransformationModel>) -> Seq<char>
    decreases ts.len(),
{
    if ts.len() == 0 {
        Seq::empty()
    } else if !buildable(groups, ts.drop_last()) {
        build_error(groups, ts.drop_last())
    } else {
        step_error(build_model(groups, ts.drop_last()), ts.last())
    }
}


/// The text of the families, in id order.
pub open spec fn families_text(families: Seq<(Seq<char>, FamilyModel)>) -> Seq<char>
    decreases families.len(),
{
    if families.len() == 0 {
        Seq::empty()
    } else {
        families_text(families.drop_last()) + rules_text(families.last().1.rules)
    }
}

/// The text of one at-rule block: `identifier {`, a line break, its rules, `}`.
pub open spec fn at_rule_text(a: AtRuleModel) -> Seq<char> {
    a.identifier + " {\n"@ + rules_text(a.rules) + "}"@
}

/// The text of the at-rule blocks, in id order.
pub open spec fn at_rules_text(blocks: Seq<(Seq<char>, AtRuleModel)>) -> Seq<char>
    decreases blocks.len(),
{
    if blocks.len() == 0 {
        Seq::empty()
    } else {
        at_rules_text(blocks.drop_last()) + at_rule_text(blocks.last().1)
    }
}

/// The CSS of an intermediate: its families, then its at-rule blocks.
pub open spec fn intermediate_text(m: IntermediateModel) -> Seq<char> {
    families_text(m.normal) + at_rules_text(m.at)
}

/// Each at-rule block is written as its identifier, ` {`, a line break, its
/// rules and its own closing `}`, and blocks are written one after another;
/// the CSS of an intermediate is its families' text, then its blocks' text.
pub proof fn lemma_at_rules_text(x: Seq<(Seq<char>, AtRuleModel)>, y: Seq<(Seq<char>, AtRuleModel)>)
    ensures
        at_rules_text(x + y) == at_rules_text(x) + at_rules_text(y),
        forall|id: Seq<char>, a: AtRuleModel| #[trigger] at_rules_text(seq![(id, a)]) == a.identifier + " {\n"@
            + rules_text(a.rules) + "}"@,
        forall|m: IntermediateModel| #[trigger] intermediate_text(m) == families_text(m.normal) + at_rules_text(m.at),
    decreases y.len(),
{
    assert forall|id: Seq<char>, a: AtRuleModel| #[trigger] at_rules_text(seq![(id, a)]) == a.identifier + " {\n"@
        + rules_text(a.rules) + "}"@ by {
        let one = seq![(id, a)];
        assert(one.len() == 1 && one.last() == (id, a));
        assert(one.drop_last() =~= Seq::<(Seq<char>, AtRuleModel)>::empty());
        assert(at_rules_text(one.drop_last()) == Seq::<char>::empty());
        assert(Seq::<char>::empty() + at_rule_text(a) =~= at_rule_text(a));
    }
    if y.len() == 0 {
        assert(x + y =~= x);
        assert(at_rules_text(x) + at_rules_text(y) =~= at_rules_text(x));
    } else {
        lemma_at_rules_text(x, y.drop_last());
        assert((x + y).drop_last() =~= x + y.drop_last());
        assert((x + y).last() == y.last());
        assert(at_rules_text(x + y) =~= at_rules_text(x) + at_rules_text(y));
    }
}

/// Writes out rules as CSS, one line per rule: the selector, then each
/// declaration as `property:value;` inside braces.
pub fn stringify_rules(rules: &Vec<CSSRule>) -> (css: String)
    ensures
        css@ == rules_text(rules.deep_view()),
{
    render_rules(rules)
}

/// The declarations of a single rule come out in property order.
pub proof fn lemma_declare_for_group_sorted(group: Seq<(Seq<char>, Seq<char>)>, decls: Seq<(Seq<char>, Seq<char>)>)
    ensures
        sorted_keys(declare_for_group(group, decls)),
    decreases group.len(),
{
    if group.len() > 0 {
        lemma_declare_for_group_sorted(group.drop_last(), decls);
        lemma_declare_all_sorted(declare_for_group(group.drop_last(), decls), decls, group.last().0, group.last().1);
    }
}

/// Every rule derived for the tokens of a group holds its declarations in
/// property order.
pub proof fn lemma_many_rules_sorted(rules: Seq<RuleModel>, group: Seq<(Seq<char>, Seq<char>)>)
    ensures
        rules_sorted(many_rules(rules, group)),
    decreases rules.len(),
{
    if rules.len() > 0 {
        lemma_many_rules_sorted(rules.drop_last(), group);
        let front = many_rules(rules.drop_last(), group);
        let back = rules_for_tokens(rules.last(), group);
        let all = many_rules(rules, group);
        assert forall|i: int| 0 <= i < all.len() implies sorted_keys((#[trigger] all[i]).declarations) by {
            if i < front.len() {
                assert(all[i] == front[i]);
            } else {
                let j = i - front.len();
                assert(all[i] == back[j]);
                lemma_declare_all_sorted(Seq::empty(), rules.last().declarations, group[j].0, group[j].1);
            }
        }
    }
}

/// For every rule, one rule per token: `rules` and a group of tokens make
/// as many rules as their sizes multiplied.
pub proof fn lemma_many_rules_len(rules: Seq<RuleModel>, group: Seq<(Seq<char>, Seq<char>)>)
    ensures
        many_rules(rules, group).len() == rules.len() * group.len(),
    decreases rules.len(),
{
    if rules.len() > 0 {
        lemma_many_rules_len(rules.drop_last(), group);
        let n = rules.len();
        let g = group.len();
        assert((n - 1) * g + g == n * g) by (nonlinear_arith);
    }
}

/// The rules of the families named by `ids`, family by family.
pub open spec fn source_rules(normal: Seq<(Seq<char>, FamilyModel)>, ids: Seq<Seq<char>>) -> Seq<RuleModel>
    decreases ids.len(),
{
    if ids.len() == 0 {
        Seq::empty()
    } else {
        source_rules(normal, ids.drop_last()) + lookup(normal, ids.last())->0.rules
    }
}

/// A copy keeps each rule's declarations and changes only its selector: the
/// copies are the rules of the named families, one for one, in order.
pub proof fn lemma_copies_keep_declarations(
    normal: Seq<(Seq<char>, FamilyModel)>,
    ids: Seq<Seq<char>>,
    new_selector: Seq<char>,
)
    ensures
        copied_rules(normal, ids, new_selector).len() == source_rules(normal, ids).len(),
        forall|i: int|
            0 <= i < source_rules(normal, ids).len() ==> {
                &&& (#[trigger] copied_rules(normal, ids, new_selector)[i]).declarations == source_rules(normal, ids)[i].declarations
                &&& copied_rules(normal, ids, new_selector)[i].selector == copied_selector(
                    new_selector,
                    source_rules(normal, ids)[i].selector,
                )
            },
    decreases ids.len(),
{
    if ids.len() > 0 {
        lemma_copies_keep_declarations(normal, ids.drop_last(), new_selector);
        let front = source_rules(normal, ids.drop_last());
        let fam = lookup(normal, ids.last())->0.rules;
        let c = copied_rules(normal, ids, new_selector);
        let s = source_rules(normal, ids);
        assert forall|i: int| 0 <= i < s.len() implies {
            &&& (#[trigger] c[i]).declarations == s[i].declarations
            &&& c[i].selector == copied_selector(new_selector, s[i].selector)
        } by {
            if i >= front.len() {
                assert(s[i] == fam[i - front.len()]);
            }
        }
    }
}

/// Building yields families and at-rule blocks sorted by id.
pub proof fn lemma_build_sorted(groups: GroupsModel, ts: Seq<TransformationModel>)
    ensures
        sorted_keys(build_model(groups, ts).normal),
        sorted_keys(build_model(groups, ts).at),
    decreases ts.len(),
{
    if ts.len() > 0 {
        lemma_build_sorted(groups, ts.drop_last());
        let m = build_model(groups, ts.drop_last());
        let t = ts.last();
        match t {
            TransformationModel::Single { id, description, group, selector, declarations } => {
                lemma_insert_sorted(m.normal, id, FamilyModel {
                    description,
                    rules: seq![RuleModel { selector, declarations: declare_for_group(lookup(groups, group)->0, declarations) }],
                });
            },
            TransformationModel::Many { id, description, group, rules } => {
                lemma_insert_sorted(m.normal, id, FamilyModel { description, rules: many_rules(rules, lookup(groups, group)->0) });
            },
            TransformationModel::Copy { id, description, affected_ids, at_rule, new_selector } => {
                let rules = copied_rules(m.normal, affected_ids, new_selector);
                match at_rule {
                    Some(identifier) => lemma_insert_sorted(m.at, id, AtRuleModel { identifier, description, rules }),
                    None => lemma_insert_sorted(m.normal, id, FamilyModel { description, rules }),
                }
            },
            TransformationModel::Plain { id, description, at_rule, rules } => {
                match at_rule {
                    Some(identifier) => lemma_insert_sorted(m.at, id, AtRuleModel { identifier, description, rules }),
                    None => lemma_insert_sorted(m.normal, id, FamilyModel { description, rules }),
                }
            },
        }
    }
}

/// Every family and every at-rule block of `m` holds rules whose declarations
/// are in property order.
pub open spec fn intermediate_sorted(m: IntermediateModel) -> bool {
    &&& forall|i: int| 0 <= i < m.normal.len() ==> rules_sorted((#[trigger] m.normal[i]).1.rules)
    &&& forall|i: int| 0 <= i < m.at.len() ==> rules_sorted((#[trigger] m.at[i]).1.rules)
}

/// A transformation that takes rules as they are holds them with their
/// declarations in property order.
pub open spec fn plain_sorted(t: TransformationModel) -> bool {
    match t {
        TransformationModel::Plain { rules, .. } => rules_sorted(rules),
        _ => true,
    }
}

/// The rules of the families named by `ids` hold their declarations in
/// property order, where those of every family do.
pub proof fn lemma_source_rules_sorted(normal: Seq<(Seq<char>, FamilyModel)>, ids: Seq<Seq<char>>)
    requires
        forall|i: int| 0 <= i < normal.len() ==> rules_sorted((#[trigger] normal[i]).1.rules),
        all_present(normal, ids),
    ensures
        rules_sorted(source_rules(normal, ids)),
    decreases ids.len(),
{
    if ids.len() > 0 {
        let front_ids = ids.drop_last();
        assert(all_present(normal, front_ids)) by {
            assert forall|i: int| 0 <= i < front_ids.len() implies has_key(normal, #[trigger] front_ids[i]) by {
                assert(front_ids[i] == ids[i]);
            }
        }
        lemma_source_rules_sorted(normal, front_ids);
        let id = ids.last();
        assert(has_key(normal, ids[ids.len() - 1]));
        lemma_first_index(normal, id);
        lemma_first_index_at(normal, id, first_index(normal, id));
        let fam = lookup(normal, id)->0.rules;
        assert(rules_sorted(fam));
        let front = source_rules(normal, front_ids);
        let all = source_rules(normal, ids);
        assert forall|k: int| 0 <= k < all.len() implies sorted_keys((#[trigger] all[k]).declarations) by {
            if k < front.len() {
                assert(all[k] == front[k]);
            } else {
                assert(all[k] == fam[k - front.len()]);
            }
        }
    }
}

/// Building holds every rule's declarations in property order, each property
/// once, where the rules taken as they are hold theirs so: the declarations
/// derived from tokens are stored in property order, and copies keep those
/// of the rules they copy.
pub proof fn lemma_build_declarations_sorted(groups: GroupsModel, ts: Seq<TransformationModel>)
    requires
        buildable(groups, ts),
        forall|i: int| 0 <= i < ts.len() ==> plain_sorted(#[trigger] ts[i]),
    ensures
        intermediate_sorted(build_model(groups, ts)),
    decreases ts.len(),
{
    if ts.len() > 0 {
        let front = ts.drop_last();
        assert forall|i: int| 0 <= i < front.len() implies plain_sorted(#[trigger] front[i]) by {
            assert(front[i] == ts[i]);
        }
        lemma_build_declarations_sorted(groups, front);
        lemma_build_sorted(groups, front);
        let m = build_model(groups, front);
        let t = ts.last();
        assert(plain_sorted(ts[ts.len() - 1]));
        let (id, description, at_rule, rules) = match t {
            TransformationModel::Single { id, description, group, selector, declarations } => {
                lemma_declare_for_group_sorted(lookup(groups, group)->0, declarations);
                let rules = seq![RuleModel { selector, declarations: declare_for_group(lookup(groups, group)->0, declarations) }];
                assert(rules_sorted(rules));
                (id, description, None, rules)
            },
            TransformationModel::Many { id, description, group, rules } => {
                lemma_many_rules_sorted(rules, lookup(groups, group)->0);
                (id, description, None, many_rules(rules, lookup(groups, group)->0))
            },
            TransformationModel::Copy { id, description, affected_ids, at_rule, new_selector } => {
                lemma_source_rules_sorted(m.normal, affected_ids);
                lemma_copies_keep_declarations(m.normal, affected_ids, new_selector);
                let c = copied_rules(m.normal, affected_ids, new_selector);
                let src = source_rules(m.normal, affected_ids);
                assert forall|k: int| 0 <= k < c.len() implies sorted_keys((#[trigger] c[k]).declarations) by {
                    assert(c[k].declarations == src[k].declarations);
                }
                (id, description, at_rule, c)
            },
            TransformationModel::Plain { id, description, at_rule, rules } => (id, description, at_rule, rules),
        };
        assert(build_model(groups, ts) == store_rules(m, id, description, at_rule, rules));
        match at_rule {
            Some(identifier) => {
                lemma_insert_sorted_values(
                    m.at,
                    id,
                    AtRuleModel { identifier, description, rules },
                    |a: AtRuleModel| rules_sorted(a.rules),
                );
            },
            None => {
                lemma_insert_sorted_values(
                    m.normal,
                    id,
                    FamilyModel { description, rules },
                    |f: FamilyModel| rules_sorted(f.rules),
                );
            },
        }
    }
}

/// Rules stored under an id are what a later lookup of that id gives: in the
/// at-rule blocks where an identifier is given, else in the families; every
/// other id, and the other kind of block, keep what they held.
pub proof fn lemma_store_then_lookup(
    m: IntermediateModel,
    id: Seq<char>,
    description: Seq<char>,
    at_rule: Option<Seq<char>>,
    rules: Seq<RuleModel>,
    other: Seq<char>,
)
    requires
        sorted_keys(m.normal),
        sorted_keys(m.at),
    ensures
        ({
            let r = store_rules(m, id, description, at_rule, rules);
            match at_rule {
                Some(identifier) => {
                    &&& lookup(r.at, id) == Some(AtRuleModel { identifier, description, rules })
                    &&& other != id ==> lookup(r.at, other) == lookup(m.at, other)
                    &&& r.normal == m.normal
                },
                None => {
                    &&& lookup(r.normal, id) == Some(FamilyModel { description, rules })
                    &&& other != id ==> lookup(r.normal, other) == lookup(m.normal, other)
                    &&& r.at == m.at
                },
            }
        }),
{
    match at_rule {
        Some(identifier) => lemma_insert_lookup(m.at, id, AtRuleModel { identifier, description, rules }, other),
        None => lemma_insert_lookup(m.normal, id, FamilyModel { description, rules }, other),
    }
}

/// The id a transformation stores its rules under.
pub open spec fn id_of(t: TransformationModel) -> Seq<char> {
    match t {
        TransformationModel::Single { id, .. } => id,
        TransformationModel::Many { id, .. } => id,
        TransformationModel::Copy { id, .. } => id,
        TransformationModel::Plain { id, .. } => id,
    }
}

/// The description of a transformation.
pub open spec fn description_of(t: TransformationModel) -> Seq<char> {
    match t {
        TransformationModel::Single { description, .. } => description,
        TransformationModel::Many { description, .. } => description,
        TransformationModel::Copy { description, .. } => description,
        TransformationModel::Plain { description, .. } => description,
    }
}

/// The at-rule identifier a transformation stores its rules in, if any.
pub open spec fn at_rule_of(t: TransformationModel) -> Option<Seq<char>> {
    match t {
        TransformationModel::Copy { at_rule, .. } => at_rule,
        TransformationModel::Plain { at_rule, .. } => at_rule,
        _ => None,
    }
}

/// The rules a transformation makes from `m` and the token groups.
pub open spec fn rules_of(m: IntermediateModel, groups: GroupsModel, t: TransformationModel) -> Seq<RuleModel> {
    match t {
        TransformationModel::Single { selector, declarations, group, .. } => seq![
            RuleModel { selector, declarations: declare_for_group(lookup(groups, group)->0, declarations) },
        ],
        TransformationModel::Many { group, rules, .. } => many_rules(rules, lookup(groups, group)->0),
        TransformationModel::Copy { affected_ids, new_selector, .. } => copied_rules(m.normal, affected_ids, new_selector),
        TransformationModel::Plain { rules, .. } => rules,
    }
}

/// After a build, the id of the last transformation holds what that
/// transformation made (in the at-rule blocks where it names an at-rule, else
/// in the families), whatever earlier transformations stored under the id;
/// every other id holds what it held before.
pub proof fn lemma_last_transformation_wins(groups: GroupsModel, ts: Seq<TransformationModel>, other: Seq<char>)
    requires
        ts.len() > 0,
    ensures
        ({
            let before = build_model(groups, ts.drop_last());
            let after = build_model(groups, ts);
            let t = ts.last();
            match at_rule_of(t) {
                Some(identifier) => {
                    &&& lookup(after.at, id_of(t)) == Some(
                        AtRuleModel { identifier, description: description_of(t), rules: rules_of(before, groups, t) },
                    )
                    &&& other != id_of(t) ==> lookup(after.at, other) == lookup(before.at, other)
                    &&& after.normal == before.normal
                },
                None => {
                    &&& lookup(after.normal, id_of(t)) == Some(
                        FamilyModel { description: description_of(t), rules: rules_of(before, groups, t) },
                    )
                    &&& other != id_of(t) ==> lookup(after.normal, other) == lookup(before.normal, other)
                    &&& after.at == before.at
                },
            }
        }),
{
    let before = build_model(groups, ts.drop_last());
    let t = ts.last();
    lemma_build_sorted(groups, ts.drop_last());
    assert(apply(before, groups, t) == store_rules(before, id_of(t), description_of(t), at_rule_of(t), rules_of(before, groups, t)));
    lemma_store_then_lookup(before, id_of(t), description_of(t), at_rule_of(t), rules_of(before, groups, t), other);
}

/// A failing transformation makes the whole sequence fail, with its message.
pub proof fn lemma_fail_at(groups: GroupsModel, ts: Seq<TransformationModel>, i: int)
    requires
        0 <= i < ts.len(),
        buildable(groups, ts.take(i)),
        !step_ok(build_model(groups, ts.take(i)), groups, ts[i]),
    ensures
        !buildable(groups, ts),
        build_error(groups, ts) == step_error(build_model(groups, ts.take(i)), ts[i]),
    decreases ts.len(),
{
    if i == ts.len() - 1 {
        assert(ts.drop_last() =~= ts.take(i));
    } else {
        let t = ts.drop_last();
        assert(t.take(i) =~= ts.take(i));
        lemma_fail_at(groups, t, i);
    }
}

/// A copy of each rule.
pub fn duplicate_rules(rules: &Vec<CSSRule>) -> (r: Vec<CSSRule>)
    ensures
        r.deep_view() == rules.deep_view(),
{
    let mut out: Vec<CSSRule> = Vec::new();
    let mut i: usize = 0;
    while i < rules.len()
        invariant
            i <= rules.len(),
            out.deep_view() == rules.deep_view().take(i as int),
        decreases rules.len() - i,
    {
        let ghost before = out@;
        assert(out.deep_view().len() == i);
        assert(before.len() == i);
        let copy = rules[i].duplicate();
        out.push(copy);
        assert(out@ == before.push(copy));
        assert(out@.len() == i + 1);
        assert forall|k: int| 0 <= k < i implies out@[k] == before[k] by {}
        assert(out.deep_view() =~= rules.deep_view().take(i + 1));
        i = i + 1;
    }
    assert(rules.deep_view().take(rules.len() as int) =~= rules.deep_view());
    out
}

/// The rules that `rules` make for the tokens of `group`: for each rule in
/// turn, one per token, with the token's key and value put into it.
pub fn derive_rules(rules: &Vec<CSSRule>, group: &StrMap<String>) -> (r: Vec<CSSRule>)
    ensures
        r.deep_view() == many_rules(rules.deep_view(), group@),
        rules_sorted(r.deep_view()),
{
    proof {
        lemma_many_rules_sorted(rules.deep_view(), group@);
    }
    let ghost gm = group@;
    let ghost rm = rules.deep_view();
    let mut out: Vec<CSSRule> = Vec::new();
    let n = group.len();
    let mut i: usize = 0;
    assert(rm.take(0) =~= Seq::<RuleModel>::empty());
    while i < rules.len()
        invariant
            gm == group@,
            rm == rules.deep_view(),
            n == gm.len(),
            i <= rm.len(),
            out.deep_view() == many_rules(rm.take(i as int), gm),
        decreases rules.len() - i,
    {
        let rule = &rules[i];
        let ghost before = out.deep_view();
        let mut j: usize = 0;
        assert(before =~= before + rules_for_tokens(rm[i as int], gm).take(0));
        while j < n
            invariant
                gm == group@,
                rm == rules.deep_view(),
                n == gm.len(),
                i < rm.len(),
                rule.deep_view() == rm[i as int],
                j <= n,
                out.deep_view() == before + rules_for_tokens(rm[i as int], gm).take(j as int),
            decreases n - j,
        {
            let key = group.key_at(j);
            let val = group.value_at(j);
            let selector = inject_variables(rule.selector.as_str(), key.as_str(), val.as_str());
            let mut declarations: Declarations = Declarations::new();
            declare_into(&mut declarations, &rule.declarations, key.as_str(), val.as_str());
            let ghost prior = out@;
            let ghost prior_dv = out.deep_view();
            let made = CSSRule { selector, declarations };
            let ghost made_dv = made.deep_view();
            assert(made_dv == rules_for_tokens(rm[i as int], gm)[j as int]);
            out.push(made);
            assert forall|k: int| 0 <= k < prior.len() implies out@[k] == prior[k] by {}
            assert(out.deep_view() =~= prior_dv.push(made_dv));
            assert(out.deep_view() =~= before + rules_for_tokens(rm[i as int], gm).take(j + 1));
            j = j + 1;
        }
        assert(rules_for_tokens(rm[i as int], gm).take(n as int) =~= rules_for_tokens(rm[i as int], gm));
        assert(rm.take(i + 1).drop_last() =~= rm.take(i as int));
        i = i + 1;
    }
    assert(rm.take(rm.len() as int) =~= rm);
    out
}

/// The declarations of `decls`, for each token of `group` in turn, with the
/// token's key and value put into them.
pub fn derive_declarations(decls: &Declarations, group: &StrMap<String>) -> (r: Declarations)
    ensures
        r@ == declare_for_group(group@, decls@),
        sorted_keys(r@),
{
    proof {
        lemma_declare_for_group_sorted(group@, decls@);
    }
    let ghost gm = group@;
    let mut declarations: Declarations = Declarations::new();
    let n = group.len();
    let mut i: usize = 0;
    assert(gm.take(0) =~= Seq::<(Seq<char>, Seq<char>)>::empty());
    assert(declarations@ =~= declare_for_group(gm.take(0), decls@));
    while i < n
        invariant
            gm == group@,
            n == gm.len(),
            i <= n,
            declarations@ == declare_for_group(gm.take(i as int), decls@),
        decreases n - i,
    {
        declare_into(&mut declarations, decls, group.key_at(i).as_str(), group.value_at(i).as_str());
        assert(gm.take(i + 1).drop_last() =~= gm.take(i as int));
        i = i + 1;
    }
    assert(gm.take(n as int) =~= gm);
    declarations
}

/// Derives the rules of `transformation` for the tokens of its group and
/// stores them as a family.
fn many_rules_from_token_group_name(
    token_groups: &TokenGroups,
    transformation: &ManyRulesFromTokenGroup,
    intermediate: &mut Intermediate,
)
    requires
        has_key(token_groups@, transformation.token_group_name@),
    ensures
        final(intermediate)@ == apply(old(intermediate)@, token_groups@, transformation.model()),
{
    let group = match token_groups.get(transformation.token_group_name.as_str()) {
        Some(g) => g,
        None => {
            assert(false);
            return;
        },
    };
    let rules = derive_rules(&transformation.rules, group);
    intermediate.normal_rules.insert(
        transformation.id.clone(),
        RuleFamily { description: transformation.description.clone(), css_rules: rules },
    );
}

/// Derives the single rule of `transformation` from the tokens of its group
/// and stores it as a family.
fn single_rule_from_token_group_name(
    token_groups: &TokenGroups,
    transformation: &FromTokenGroup,
    intermediate: &mut Intermediate,
)
    requires
        has_key(token_groups@, transformation.token_group_name@),
    ensures
        final(intermediate)@ == apply(old(intermediate)@, token_groups@, transformation.model()),
{
    let group = match token_groups.get(transformation.token_group_name.as_str()) {
        Some(g) => g,
        None => {
            assert(false);
            return;
        },
    };
    let selector = transformation.selector.clone();
    let declarations = derive_declarations(&transformation.declarations, group);
    let rule = CSSRule { selector, declarations };
    let ghost rule_model = rule.deep_view();
    let css_rules = vec![rule];
    assert(css_rules.deep_view() =~= seq![rule_model]);
    intermediate.normal_rules.insert(
        transformation.id.clone(),
        RuleFamily { description: transformation.description.clone(), css_rules },
    );
}

/// Copies the rules of the families that `transformation` names under its new
/// selector, and stores the copies.
fn copy_existing_rules(transformation: &CopyExistingRules, intermediate: &mut Intermediate)
    requires
        all_present(old(intermediate).normal_rules@, transformation.affected_ids.deep_view()),
    ensures
        final(intermediate)@ == apply(old(intermediate)@, Seq::empty(), transformation.model()),
{
    let ghost ids = transformation.affected_ids.deep_view();
    let ghost normal = intermediate.normal_rules@;
    let ghost ns = transformation.new_selector@;
    let mut new_rules: Vec<CSSRule> = Vec::new();
    let mut i: usize = 0;
    assert(ids.take(0) =~= Seq::<Seq<char>>::empty());

    while i < transformation.affected_ids.len()
        invariant
            ids == transformation.affected_ids.deep_view(),
            normal == intermediate.normal_rules@,
            ns == transformation.new_selector@,
            i <= ids.len(),
            forall|k: int| 0 <= k < ids.len() ==> has_key(normal, #[trigger] ids[k]),
            new_rules.deep_view() == copied_rules(normal, ids.take(i as int), ns),
        decreases transformation.affected_ids.len() - i,
    {
        let id = &transformation.affected_ids[i];
        assert(ids[i as int] == id@);
        let family = match intermediate.normal_rules.get(id.as_str()) {
            Some(f) => f,
            None => {
                assert(false);
                return;
            },
        };
        let ghost fr = family.css_rules.deep_view();
        let ghost before = new_rules.deep_view();
        let mut j: usize = 0;
        assert(before =~= before + fr.map_values(|r: RuleModel| copy_rule(r, ns)).take(0));
        while j < family.css_rules.len()
            invariant
                fr == family.css_rules.deep_view(),
                ns == transformation.new_selector@,
                j <= fr.len(),
                new_rules.deep_view() == before + fr.map_values(|r: RuleModel| copy_rule(r, ns)).take(j as int),
            decreases family.css_rules.len() - j,
        {
            let rule = &family.css_rules[j];
            let prev_class_name = replace_once(rule.selector.as_str(), ".", "");
            let selector = replace(transformation.new_selector.as_str(), "{{ PREV_SELECTOR_CLASS_NAME }}", prev_class_name.as_str());
            let selector = replace(selector.as_str(), "{{ PREV_SELECTOR }}", rule.selector.as_str());
            let ghost prior = new_rules@;
            let ghost prior_dv = new_rules.deep_view();
            let made = CSSRule { selector, declarations: rule.declarations.duplicate() };
            let ghost made_dv = made.deep_view();
            assert(made_dv == copy_rule(fr[j as int], ns));
            new_rules.push(made);
            assert forall|k: int| 0 <= k < prior.len() implies new_rules@[k] == prior[k] by {}
            assert(new_rules.deep_view() =~= prior_dv.push(made_dv));
            assert(new_rules.deep_view() =~= before + fr.map_values(|r: RuleModel| copy_rule(r, ns)).take(j + 1));
            j = j + 1;
        }
        assert(fr.map_values(|r: RuleModel| copy_rule(r, ns)).take(fr.len() as int) =~= fr.map_values(|r: RuleModel| copy_rule(r, ns)));
        assert(ids.take(i + 1).drop_last() =~= ids.take(i as int));
        i = i + 1;
    }
    assert(ids.take(ids.len() as int) =~= ids);
    match &transformation.at_rule_identifier {
        Some(identifier) => {
            intermediate.at_rules.insert(
                transformation.id.clone(),
                AtRule {
                    identifier: identifier.clone(),
                    description: transformation.description.clone(),
                    css_rules: new_rules,
                },
            );
        },
        None => {
            intermediate.normal_rules.insert(
                transformation.id.clone(),
                RuleFamily { description: transformation.description.clone(), css_rules: new_rules },
            );
        },
    }
}

/// Stores the rules of `transformation` as they are.
fn take_rules_as_they_are(transformation: &NoTransformation, intermediate: &mut Intermediate)
    ensures
        final(intermediate)@ == apply(old(intermediate)@, Seq::empty(), transformation.model()),
{
    let rules = duplicate_rules(&transformation.rules);
    match &transformation.at_rule_identifier {
        Some(identifier) => {
            intermediate.at_rules.insert(
                transformation.id.clone(),
                AtRule { identifier: identifier.clone(), description: transformation.description.clone(), css_rules: rules },
            );
        },
        None => {
            intermediate.normal_rules.insert(
                transformation.id.clone(),
                RuleFamily { description: transformation.description.clone(), css_rules: rules },
            );
        },
    }
}

impl Default for Intermediate {
    /// An intermediate with no families and no at-rule blocks.
    fn default() -> (r: Intermediate)
        ensures
            r@ == empty_model(),
    {
        Intermediate::new()
    }
}

impl Intermediate {
    /// An intermediate with no families and no at-rule blocks.
    pub fn new() -> (r: Intermediate)
        ensures
            r@ == empty_model(),
    {
        Intermediate { normal_rules: StrMap::new(), at_rules: StrMap::new() }
    }

    /// Applies `transformations` in order, or gives the message of the first
    /// one that cannot apply: one whose token group does not exist, or that
    /// copies a family that does not exist when its turn comes.
    pub fn try_build(token_groups: &TokenGroups, transformations: &Transformations) -> (r: Result<Intermediate, String>)
        ensures
            r is Ok <==> buildable(token_groups@, transformations.deep_view()),
            r matches Ok(i) ==> i@ == build_model(token_groups@, transformations.deep_view()),
            r matches Err(msg) ==> msg@ == build_error(token_groups@, transformations.deep_view()),
    {
        let ghost g = token_groups@;
        let ghost ts = transformations.deep_view();
        let mut intermediate = Intermediate::new();
        let mut i: usize = 0;
        assert(ts.take(0) =~= Seq::<TransformationModel>::empty());
        while i < transformations.len()
            invariant
                g == token_groups@,
                ts == transformations.deep_view(),
                i <= ts.len(),
                buildable(g, ts.take(i as int)),
                intermediate@ == build_model(g, ts.take(i as int)),
            decreases transformations.len() - i,
        {
            let ghost prev = intermediate@;
            assert(ts.take(i + 1).drop_last() =~= ts.take(i as int));
            assert(ts[i as int] == transformations[i as int].deep_view());
            match &transformations[i] {
                Transformation::SingleRuleFromTokenGroup(t) => {
                    if token_groups.get(t.token_group_name.as_str()).is_none() {
                        proof {
                            lemma_fail_at(g, ts, i as int);
                        }
                        return Err(err_msg_for_missing_map(t.token_group_name.as_str()));
                    }
                    single_rule_from_token_group_name(token_groups, t, &mut intermediate);
                },
                Transformation::ManyRulesFromTokenGroup(t) => {
                    if token_groups.get(t.token_group_name.as_str()).is_none() {
                        proof {
                            lemma_fail_at(g, ts, i as int);
                        }
                        return Err(err_msg_for_missing_map(t.token_group_name.as_str()));
                    }
                    many_rules_from_token_group_name(token_groups, t, &mut intermediate);
                },
                Transformation::CopyExistingRules(t) => {
                    let ghost ids = t.affected_ids.deep_view();
                    let mut k: usize = 0;
                    assert(ids.skip(0) =~= ids);
                    assert(ids.take(0) =~= Seq::<Seq<char>>::empty());
                    while k < t.affected_ids.len()
                        invariant
                            g == token_groups@,
                            ts == transformations.deep_view(),
                            i < ts.len(),
                            ts[i as int] == t.model(),
                            buildable(g, ts.take(i as int)),
                            prev == build_model(g, ts.take(i as int)),
                            ids == t.affected_ids.deep_view(),
                            prev == intermediate@,
                            k <= ids.len(),
                            all_present(prev.normal, ids.take(k as int)),
                            first_missing(prev.normal, ids) == first_missing(prev.normal, ids.skip(k as int)),
                        decreases t.affected_ids.len() - k,
                    {
                        assert(ids[k as int] == t.affected_ids[k as int]@);
                        if intermediate.normal_rules.get(t.affected_ids[k].as_str()).is_none() {
                            proof {
                                lemma_fail_at(g, ts, i as int);
                            }
                            return Err(err_msg_for_missing_transformation(t.description.as_str(), t.affected_ids[k].as_str()));
                        }
                        assert(ids.skip(k as int).drop_first() =~= ids.skip(k + 1));
                        assert(ids.take(k + 1) =~= ids.take(k as int).push(ids[k as int]));
                        k = k + 1;
                    }
                    assert(ids.take(ids.len() as int) =~= ids);
                    copy_existing_rules(t, &mut intermediate);
                },
                Transformation::NoTransformation(t) => {
                    take_rules_as_they_are(t, &mut intermediate);
                },
            }
            i = i + 1;
        }
        assert(ts.take(ts.len() as int) =~= ts);
        Ok(intermediate)
    }

    /// The CSS of all families, in id order, followed by all at-rule blocks,
    /// in id order.
    pub fn stringify(&self) -> (css: String)
        ensures
            css@ == intermediate_text(self@),
    {
        let mut css = String::new();
        let ghost normal = self.normal_rules@;
        let ghost at = self.at_rules@;
        let n = self.normal_rules.len();
        let mut i: usize = 0;
        assert(normal.take(0) =~= Seq::<(Seq<char>, FamilyModel)>::empty());
        while i < n
            invariant
                normal == self.normal_rules@,
                n == normal.len(),
                i <= n,
                css@ == families_text(normal.take(i as int)),
            decreases n - i,
        {
            let block = stringify_rules(&self.normal_rules.value_at(i).css_rules);
            css.append(block.as_str());
            assert(normal.take(i + 1).drop_last() =~= normal.take(i as int));
            i = i + 1;
        }
        assert(normal.take(n as int) =~= normal);
        let ghost front = css@;
        let m = self.at_rules.len();
        let mut j: usize = 0;
        assert(at.take(0) =~= Seq::<(Seq<char>, AtRuleModel)>::empty());
        while j < m
            invariant
                at == self.at_rules@,
                m == at.len(),
                j <= m,
                css@ == front + at_rules_text(at.take(j as int)),
            decreases m - j,
        {
            let at_rule = self.at_rules.value_at(j);
            let block = stringify_rules(&at_rule.css_rules);
            css.append(at_rule.identifier.as_str());
            css.append(" {\n");
            css.append(block.as_str());
            css.append("}");
            assert(at.take(j + 1).drop_last() =~= at.take(j as int));
            j = j + 1;
        }
        assert(at.take(m as int) =~= at);
        css
    }

    /// Applies `transformations`, in order, to an empty intermediate.
    pub fn build(token_groups: TokenGroups, transformations: Transformations) -> (r: Intermediate)
        requires
            buildable(token_groups@, transformations.deep_view()),
        ensures
            r@ == build_model(token_groups@, transformations.deep_view()),
    {
        match Intermediate::try_build(&token_groups, &transformations) {
            Ok(intermediate) => intermediate,
            Err(_) => {
                assert(false);
                Intermediate::new()
            },
        }
    }
}

} // verus!
