//! Instructions: a configuration of variable groups and instructions, each of
//! which derives a list of CSS rules. `generate_rules` runs the instructions
//! in order and gathers every list, by instruction id.

use vstd::prelude::*;
use crate::css::{CSSRule, Declarations, RuleModel, render_rules, rules_sorted, rules_text};
use crate::strmap::{
    StrMap, first_index, has_key, insert_sorted, lookup, lemma_first_index, lemma_first_index_at, lemma_insert_lookup,
    lemma_insert_sorted, lemma_insert_sorted_values, sorted_keys,
};
use crate::text::{starts_with, replace_first, replace_once};
use crate::transformation::{
    declare_for_group, derive_declarations, derive_rules, duplicate_rules, lemma_declare_for_group_sorted,
    lemma_many_rules_sorted, many_rules, GroupsModel,
};

verus! {

/// Derives a new rule for each rule, targeting a class, of the instructions
/// named by `affected_ids`: the class gets `class_prefix` and the pseudo-class
/// `represents_pseudo_class`.
pub struct AddClassModifier {
    pub id: String,
    pub description: String,
    pub affected_ids: Vec<String>,
    pub class_prefix: String,
    pub represents_pseudo_class: String,
}

/// Derives one rule: its declarations are those of the instruction, repeated
/// for every variable of the named group.
pub struct FromVariableGroup {
    pub id: String,
    pub description: String,
    pub variable_group: String,
    pub selector: String,
    pub declarations: Declarations,
}

/// Derives, from each of its rules, one rule for every variable of the named
/// group.
pub struct ManyRulesFromVariableGroup {
    pub id: String,
    pub description: String,
    pub variable_group: String,
    pub rules: Vec<CSSRule>,
}

/// One instruction.
pub enum Instruction {
    SingleRuleFromVariableGroup(FromVariableGroup),
    ManyRulesFromVariableGroup(ManyRulesFromVariableGroup),
    AddClassModifier(AddClassModifier),
}

/// A variable group: variable key to value.
pub type VariableGroup = StrMap<String>;

/// Variable groups by name, and the instructions, in the order they run.
pub struct Config {
    pub variable_groups: StrMap<VariableGroup>,
    pub instructions: Vec<Instruction>,
}

/// What an instruction says.
pub enum InstructionModel {
    Single {
        id: Seq<char>,
        description: Seq<char>,
        group: Seq<char>,
        selector: Seq<char>,
        declarations: Seq<(Seq<char>, Seq<char>)>,
    },
    Many { id: Seq<char>, description: Seq<char>, group: Seq<char>, rules: Seq<RuleModel> },
    Modifier {
        id: Seq<char>,
        description: Seq<char>,
        affected_ids: Seq<Seq<char>>,
        class_prefix: Seq<char>,
        pseudo_class: Seq<char>,
    },
}

impl FromVariableGroup {
    /// What this instruction says.
    pub open spec fn model(&self) -> InstructionModel {
        InstructionModel::Single {
            id: self.id@,
            description: self.description@,
            group: self.variable_group@,
            selector: self.selector@,
            declarations: self.declarations@,
        }
    }
}

impl ManyRulesFromVariableGroup {
    /// What this instruction says.
    pub open spec fn model(&self) -> InstructionModel {
        InstructionModel::Many {
            id: self.id@,
            description: self.description@,
            group: self.variable_group@,
            rules: self.rules.deep_view(),
        }
    }
}

impl AddClassModifier {
    /// What this instruction says.
    pub open spec fn model(&self) -> InstructionModel {
        InstructionModel::Modifier {
            id: self.id@,
            description: self.description@,
            affected_ids: self.affected_ids.deep_view(),
            class_prefix: self.class_prefix@,
            pseudo_class: self.represents_pseudo_class@,
        }
    }
}

impl DeepView for Instruction {
    type V = InstructionModel;

    open spec fn deep_view(&self) -> InstructionModel {
        match self {
            Instruction::SingleRuleFromVariableGroup(i) => i.model(),
            Instruction::ManyRulesFromVariableGroup(i) => i.model(),
            Instruction::AddClassModifier(i) => i.model(),
        }
    }
}

/// The rule lists made so far, by instruction id.
pub type RulesModel = Seq<(Seq<char>, Seq<RuleModel>)>;

/// The message for a variable group that does not exist.
pub open spec fn missing_map_message(description: Seq<char>, group: Seq<char>) -> Seq<char> {
    description + ": There is no variable map named "@ + group
}

/// The message for an instruction id that names no rule list.
pub open spec fn missing_instruction_message(description: Seq<char>, id: Seq<char>) -> Seq<char> {
    description + ": There is no instruction named "@ + id
}

/// The message given when `variable_group`, read by the instruction described
/// by `description`, names no variable group.
pub fn err_msg_for_missing_map(description: &str, variable_group: &str) -> (msg: String)
    ensures
        msg@ == missing_map_message(description@, variable_group@),
{
    let mut msg = String::new();
    msg.append(description);
    msg.append(": There is no variable map named ");
    msg.append(variable_group);
    msg
}

/// The message given when `id`, affected by the instruction described by
/// `description`, names no rule list.
pub fn err_msg_for_missing_instruction(description: &str, id: &str) -> (msg: String)
    ensures
        msg@ == missing_instruction_message(description@, id@),
{
    let mut msg = String::new();
    msg.append(description);
    msg.append(": There is no instruction named ");
    msg.append(id);
    msg
}

/// A rule for a class, with the class prefixed and the pseudo-class added:
/// `.` + the selector with its first `.` replaced by the prefix + `:` + the
/// pseudo-class. Its declarations stay.
pub open spec fn modify_rule(r: RuleModel, class_prefix: Seq<char>, pseudo_class: Seq<char>) -> RuleModel {
    RuleModel {
        selector: "."@ + replace_first(r.selector, "."@, class_prefix) + ":"@ + pseudo_class,
        declarations: r.declarations,
    }
}

/// The modified rules of `rules` whose selectors begin with `.`; the others
/// are skipped.
pub open spec fn class_rules(rules: Seq<RuleModel>, class_prefix: Seq<char>, pseudo_class: Seq<char>) -> Seq<RuleModel>
    decreases rules.len(),
{
    if rules.len() == 0 {
        Seq::empty()
    } else if "."@.is_prefix_of(rules.last().selector) {
        class_rules(rules.drop_last(), class_prefix, pseudo_class).push(
            modify_rule(rules.last(), class_prefix, pseudo_class),
        )
    } else {
        class_rules(rules.drop_last(), class_prefix, pseudo_class)
    }
}

/// The class modifier makes at most one rule per rule, each for a class (its
/// selector begins with `.`), with the declarations of a rule it came from.
pub proof fn lemma_class_rules(rules: Seq<RuleModel>, class_prefix: Seq<char>, pseudo_class: Seq<char>)
    ensures
        class_rules(rules, class_prefix, pseudo_class).len() <= rules.len(),
        forall|i: int|
            0 <= i < class_rules(rules, class_prefix, pseudo_class).len() ==> {
                &&& "."@.is_prefix_of((#[trigger] class_rules(rules, class_prefix, pseudo_class)[i]).selector)
                &&& exists|j: int|
                    0 <= j < rules.len() && "."@.is_prefix_of(rules[j].selector)
                        && class_rules(rules, class_prefix, pseudo_class)[i] == modify_rule(#[trigger] rules[j], class_prefix, pseudo_class)
            },
    decreases rules.len(),
{
    reveal_strlit(".");
    if rules.len() > 0 {
        let front = rules.drop_last();
        lemma_class_rules(front, class_prefix, pseudo_class);
        let c = class_rules(rules, class_prefix, pseudo_class);
        let cf = class_rules(front, class_prefix, pseudo_class);
        assert forall|i: int| 0 <= i < c.len() implies {
            &&& "."@.is_prefix_of((#[trigger] c[i]).selector)
            &&& exists|j: int|
                0 <= j < rules.len() && "."@.is_prefix_of(rules[j].selector) && c[i] == modify_rule(#[trigger] rules[j], class_prefix, pseudo_class)
        } by {
            if i < cf.len() {
                assert(c[i] == cf[i]);
                let j = choose|j: int|
                    0 <= j < front.len() && "."@.is_prefix_of(front[j].selector) && cf[i] == modify_rule(#[trigger] front[j], class_prefix, pseudo_class);
                assert(rules[j] == front[j]);
            } else {
                assert(c[i] == modify_rule(rules.last(), class_prefix, pseudo_class));
                assert(rules[rules.len() - 1] == rules.last());
                let sel = c[i].selector;
                assert(sel == "."@ + replace_first(rules.last().selector, "."@, class_prefix) + ":"@ + pseudo_class);
                assert(sel[0] == '.');
                assert(sel.subrange(0, 1) =~= "."@);
            }
        }
    }
}

/// The modified class rules of the lists named by `ids`, list by list.
pub open spec fn modified_rules(
    by_id: RulesModel,
    ids: Seq<Seq<char>>,
    class_prefix: Seq<char>,
    pseudo_class: Seq<char>,
) -> Seq<RuleModel>
    decreases ids.len(),
{
    if ids.len() == 0 {
        Seq::empty()
    } else {
        modified_rules(by_id, ids.drop_last(), class_prefix, pseudo_class) + class_rules(
            lookup(by_id, ids.last())->0,
            class_prefix,
            pseudo_class,
        )
    }
}

/// Every id of `ids` names a rule list of `by_id`.
pub open spec fn all_listed(by_id: RulesModel, ids: Seq<Seq<char>>) -> bool {
    forall|i: int| 0 <= i < ids.len() ==> has_key(by_id, #[trigger] ids[i])
}

/// Whether `inst` can run: the variable group it reads exists, and so do the
/// rule lists it modifies.
pub open spec fn instruction_ok(by_id: RulesModel, groups: GroupsModel, inst: InstructionModel) -> bool {
    match inst {
        InstructionModel::Single { group, .. } => has_key(groups, group),
        InstructionModel::Many { group, .. } => has_key(groups, group),
        InstructionModel::Modifier { affected_ids, .. } => all_listed(by_id, affected_ids),
    }
}

/// The first of `ids` that names no rule list.
pub open spec fn first_unlisted(by_id: RulesModel, ids: Seq<Seq<char>>) -> Seq<char>
    decreases ids.len(),
{
    if ids.len() == 0 {
        Seq::empty()
    } else if !has_key(by_id, ids[0]) {
        ids[0]
    } else {
        first_unlisted(by_id, ids.drop_first())
    }
}

/// The message for an instruction that cannot run.
pub open spec fn instruction_error(by_id: RulesModel, inst: InstructionModel) -> Seq<char> {
    match inst {
        InstructionModel::Single { description, group, .. } => missing_map_message(description, group),
        InstructionModel::Many { description, group, .. } => missing_map_message(description, group),
        InstructionModel::Modifier { description, affected_ids, .. } => missing_instruction_message(
            description,
            first_unlisted(by_id, affected_ids),
        ),
    }
}

/// The rules an instruction makes.
pub open spec fn instruction_rules(by_id: RulesModel, groups: GroupsModel, inst: InstructionModel) -> Seq<RuleModel> {
    match inst {
        InstructionModel::Single { selector, declarations, group, .. } => seq![
            RuleModel { selector, declarations: declare_for_group(lookup(groups, group)->0, declarations) },
        ],
        InstructionModel::Many { group, rules, .. } => many_rules(rules, lookup(groups, group)->0),
        InstructionModel::Modifier { affected_ids, class_prefix, pseudo_class, .. } => modified_rules(
            by_id,
            affected_ids,
            class_prefix,
            pseudo_class,
        ),
    }
}

/// The id of an instruction.
pub open spec fn instruction_id(inst: InstructionModel) -> Seq<char> {
    match inst {
        InstructionModel::Single { id, .. } => id,
        InstructionModel::Many { id, .. } => id,
        InstructionModel::Modifier { id, .. } => id,
    }
}

/// The rule lists after `insts` run in order, by instruction id.
pub open spec fn run_model(groups: GroupsModel, insts: Seq<InstructionModel>) -> RulesModel
    decreases insts.len(),
{
    if insts.len() == 0 {
        Seq::empty()
    } else {
        let by_id = run_model(groups, insts.drop_last());
        insert_sorted(by_id, instruction_id(insts.last()), instruction_rules(by_id, groups, insts.last()))
    }
}

/// Every instruction of `insts` can run when its turn comes.
pub open spec fn runnable(groups: GroupsModel, insts: Seq<InstructionModel>) -> bool
    decreases insts.len(),
{
    insts.len() == 0 || (runnable(groups, insts.drop_last()) && instruction_ok(
        run_model(groups, insts.drop_last()),
        groups,
        insts.last(),
    ))
}

/// The message for the first instruction of `insts` that cannot run.
pub open spec fn run_error(groups: GroupsModel, insts: Seq<InstructionModel>) -> Seq<char>
    decreases insts.len(),
{
    if insts.len() == 0 {
        Seq::empty()
    } else if !runnable(groups, insts.drop_last()) {
        run_error(groups, insts.drop_last())
    } else {
        instruction_error(run_model(groups, insts.drop_last()), insts.last())
    }
}

/// All rule lists, one after another, in id order.
pub open spec fn all_rules(by_id: RulesModel) -> Seq<RuleModel>
    decreases by_id.len(),
{
    if by_id.len() == 0 {
        Seq::empty()
    } else {
        all_rules(by_id.drop_last()) + by_id.last().1
    }
}

/// Running instructions keeps the rule lists sorted by instruction id, and the
/// id of the last instruction holds the rules it made; every other id holds
/// what it held before.
pub proof fn lemma_run_last_wins(groups: GroupsModel, insts: Seq<InstructionModel>, other: Seq<char>)
    ensures
        sorted_keys(run_model(groups, insts)),
        insts.len() > 0 ==> {
            let before = run_model(groups, insts.drop_last());
            let after = run_model(groups, insts);
            let inst = insts.last();
            &&& lookup(after, instruction_id(inst)) == Some(instruction_rules(before, groups, inst))
            &&& other != instruction_id(inst) ==> lookup(after, other) == lookup(before, other)
        },
    decreases insts.len(),
{
    if insts.len() > 0 {
        lemma_run_last_wins(groups, insts.drop_last(), other);
        let before = run_model(groups, insts.drop_last());
        let inst = insts.last();
        lemma_insert_sorted(before, instruction_id(inst), instruction_rules(before, groups, inst));
        lemma_insert_lookup(before, instruction_id(inst), instruction_rules(before, groups, inst), other);
    }
}

/// Rules modified for a class keep declarations in property order where the
/// rules they come from held them so.
pub proof fn lemma_class_rules_sorted(rules: Seq<RuleModel>, class_prefix: Seq<char>, pseudo_class: Seq<char>)
    requires
        rules_sorted(rules),
    ensures
        rules_sorted(class_rules(rules, class_prefix, pseudo_class)),
{
    lemma_class_rules(rules, class_prefix, pseudo_class);
    let c = class_rules(rules, class_prefix, pseudo_class);
    assert forall|i: int| 0 <= i < c.len() implies sorted_keys((#[trigger] c[i]).declarations) by {
        let j = choose|j: int|
            0 <= j < rules.len() && "."@.is_prefix_of(rules[j].selector) && c[i] == modify_rule(#[trigger] rules[j], class_prefix, pseudo_class);
        assert(c[i].declarations == rules[j].declarations);
    }
}

/// The modified rules of listed rule lists keep declarations in property
/// order where every list held them so.
pub proof fn lemma_modified_rules_sorted(
    by_id: RulesModel,
    ids: Seq<Seq<char>>,
    class_prefix: Seq<char>,
    pseudo_class: Seq<char>,
)
    requires
        forall|i: int| 0 <= i < by_id.len() ==> rules_sorted((#[trigger] by_id[i]).1),
        all_listed(by_id, ids),
    ensures
        rules_sorted(modified_rules(by_id, ids, class_prefix, pseudo_class)),
    decreases ids.len(),
{
    if ids.len() > 0 {
        let front_ids = ids.drop_last();
        assert(all_listed(by_id, front_ids)) by {
            assert forall|i: int| 0 <= i < front_ids.len() implies has_key(by_id, #[trigger] front_ids[i]) by {
                assert(front_ids[i] == ids[i]);
            }
        }
        lemma_modified_rules_sorted(by_id, front_ids, class_prefix, pseudo_class);
        let id = ids.last();
        assert(has_key(by_id, ids[ids.len() - 1]));
        lemma_first_index(by_id, id);
        lemma_first_index_at(by_id, id, first_index(by_id, id));
        lemma_class_rules_sorted(lookup(by_id, id)->0, class_prefix, pseudo_class);
        let front = modified_rules(by_id, front_ids, class_prefix, pseudo_class);
        let back = class_rules(lookup(by_id, id)->0, class_prefix, pseudo_class);
        let all = modified_rules(by_id, ids, class_prefix, pseudo_class);
        assert forall|k: int| 0 <= k < all.len() implies sorted_keys((#[trigger] all[k]).declarations) by {
            if k < front.len() {
                assert(all[k] == front[k]);
            } else {
                assert(all[k] == back[k - front.len()]);
            }
        }
    }
}

/// Rule lists that each hold declarations in property order make, one after
/// another, rules that do.
pub proof fn lemma_all_rules_sorted(by_id: RulesModel)
    requires
        forall|i: int| 0 <= i < by_id.len() ==> rules_sorted((#[trigger] by_id[i]).1),
    ensures
        rules_sorted(all_rules(by_id)),
    decreases by_id.len(),
{
    if by_id.len() > 0 {
        let front = by_id.drop_last();
        assert forall|i: int| 0 <= i < front.len() implies rules_sorted((#[trigger] front[i]).1) by {
            assert(front[i] == by_id[i]);
        }
        lemma_all_rules_sorted(front);
        let a = all_rules(front);
        let b = by_id.last().1;
        assert(rules_sorted(by_id[by_id.len() - 1].1));
        let all = all_rules(by_id);
        assert forall|k: int| 0 <= k < all.len() implies sorted_keys((#[trigger] all[k]).declarations) by {
            if k < a.len() {
                assert(all[k] == a[k]);
            } else {
                assert(all[k] == b[k - a.len()]);
            }
        }
    }
}

/// Every rule that running instructions makes holds its declarations in
/// property order, each property once: derived declarations are stored in
/// property order, and modified rules keep the declarations of the rules they
/// come from.
pub proof fn lemma_run_declarations_sorted(groups: GroupsModel, insts: Seq<InstructionModel>)
    requires
        runnable(groups, insts),
    ensures
        forall|i: int| 0 <= i < run_model(groups, insts).len() ==> rules_sorted((#[trigger] run_model(groups, insts)[i]).1),
        rules_sorted(all_rules(run_model(groups, insts))),
    decreases insts.len(),
{
    if insts.len() > 0 {
        let front = insts.drop_last();
        lemma_run_declarations_sorted(groups, front);
        lemma_run_last_wins(groups, front, Seq::empty());
        let before = run_model(groups, front);
        let inst = insts.last();
        match inst {
            InstructionModel::Single { selector, declarations, group, .. } => {
                lemma_declare_for_group_sorted(lookup(groups, group)->0, declarations);
                assert(rules_sorted(instruction_rules(before, groups, inst)));
            },
            InstructionModel::Many { group, rules, .. } => {
                lemma_many_rules_sorted(rules, lookup(groups, group)->0);
            },
            InstructionModel::Modifier { affected_ids, class_prefix, pseudo_class, .. } => {
                lemma_modified_rules_sorted(before, affected_ids, class_prefix, pseudo_class);
            },
        }
        lemma_insert_sorted_values(
            before,
            instruction_id(inst),
            instruction_rules(before, groups, inst),
            |rs: Seq<RuleModel>| rules_sorted(rs),
        );
    }
    lemma_all_rules_sorted(run_model(groups, insts));
}

/// A failing instruction makes the whole sequence fail, with its message.
pub proof fn lemma_run_fails_at(groups: GroupsModel, insts: Seq<InstructionModel>, i: int)
    requires
        0 <= i < insts.len(),
        runnable(groups, insts.take(i)),
        !instruction_ok(run_model(groups, insts.take(i)), groups, insts[i]),
    ensures
        !runnable(groups, insts),
        run_error(groups, insts) == instruction_error(run_model(groups, insts.take(i)), insts[i]),
    decreases insts.len(),
{
    if i == insts.len() - 1 {
        assert(insts.drop_last() =~= insts.take(i));
    } else {
        let t = insts.drop_last();
        assert(t.take(i) =~= insts.take(i));
        lemma_run_fails_at(groups, t, i);
    }
}


/// Derives, from each rule of `inst`, one rule for every variable of its group.
pub fn many_rules_from_variable_group(config: &Config, inst: &ManyRulesFromVariableGroup) -> (r: Vec<CSSRule>)
    requires
        has_key(config.variable_groups@, inst.variable_group@),
    ensures
        r.deep_view() == instruction_rules(Seq::empty(), config.variable_groups@, inst.model()),
{
    let group = match config.variable_groups.get(inst.variable_group.as_str()) {
        Some(g) => g,
        None => {
            assert(false);
            return Vec::new();
        },
    };
    derive_rules(&inst.rules, group)
}

/// Derives the single rule of `inst`: its declarations, for every variable of
/// its group.
pub fn single_rule_from_variable_group(config: &Config, inst: &FromVariableGroup) -> (r: Vec<CSSRule>)
    requires
        has_key(config.variable_groups@, inst.variable_group@),
    ensures
        r.deep_view() == instruction_rules(Seq::empty(), config.variable_groups@, inst.model()),
{
    let group = match config.variable_groups.get(inst.variable_group.as_str()) {
        Some(g) => g,
        None => {
            assert(false);
            return Vec::new();
        },
    };
    let selector = inst.selector.clone();
    let declarations = derive_declarations(&inst.declarations, group);
    let rule = CSSRule { selector, declarations };
    let ghost rule_model = rule.deep_view();
    let rules = vec![rule];
    assert(rules.deep_view() =~= seq![rule_model]);
    rules
}

/// Derives a new rule for each rule, targeting a class, of the lists that
/// `inst` names: the selector gets the class prefix and the pseudo-class.
/// Rules whose selectors do not begin with `.` are skipped.
pub fn add_class_modifier(inst: &AddClassModifier, rules_by_id: &StrMap<Vec<CSSRule>>) -> (r: Vec<CSSRule>)
    requires
        all_listed(rules_by_id@, inst.affected_ids.deep_view()),
    ensures
        r.deep_view() == instruction_rules(rules_by_id@, Seq::empty(), inst.model()),
{
    let ghost ids = inst.affected_ids.deep_view();
    let ghost by_id = rules_by_id@;
    let ghost prefix = inst.class_prefix@;
    let ghost pseudo = inst.represents_pseudo_class@;
    let mut new_rules: Vec<CSSRule> = Vec::new();
    let mut i: usize = 0;
    assert(ids.take(0) =~= Seq::<Seq<char>>::empty());
    while i < inst.affected_ids.len()
        invariant
            ids == inst.affected_ids.deep_view(),
            by_id == rules_by_id@,
            prefix == inst.class_prefix@,
            pseudo == inst.represents_pseudo_class@,
            i <= ids.len(),
            all_listed(by_id, ids),
            new_rules.deep_view() == modified_rules(by_id, ids.take(i as int), prefix, pseudo),
        decreases inst.affected_ids.len() - i,
    {
        let id = &inst.affected_ids[i];
        assert(ids[i as int] == id@);
        let rules = match rules_by_id.get(id.as_str()) {
            Some(rules) => rules,
            None => {
                assert(false);
                return Vec::new();
            },
        };
        let ghost rs = rules.deep_view();
        let ghost before = new_rules.deep_view();
        let mut j: usize = 0;
        assert(rs.take(0) =~= Seq::<RuleModel>::empty());
        assert(before =~= before + class_rules(rs.take(0), prefix, pseudo));
        while j < rules.len()
            invariant
                rs == rules.deep_view(),
                prefix == inst.class_prefix@,
                pseudo == inst.represents_pseudo_class@,
                j <= rs.len(),
                new_rules.deep_view() == before + class_rules(rs.take(j as int), prefix, pseudo),
            decreases rules.len() - j,
        {
            let rule = &rules[j];
            assert(rs.take(j + 1).drop_last() =~= rs.take(j as int));
            assert(rs.take(j + 1).last() == rule.deep_view());
            if starts_with(rule.selector.as_str(), ".") {
                let with_prefix = replace_once(rule.selector.as_str(), ".", inst.class_prefix.as_str());
                let mut selector = String::new();
                selector.append(".");
                selector.append(with_prefix.as_str());
                selector.append(":");
                selector.append(inst.represents_pseudo_class.as_str());
                let ghost prior = new_rules@;
                let ghost prior_dv = new_rules.deep_view();
                let made = CSSRule { selector, declarations: rule.declarations.duplicate() };
                let ghost made_dv = made.deep_view();
                assert(made_dv == modify_rule(rule.deep_view(), prefix, pseudo));
                new_rules.push(made);
                assert forall|k: int| 0 <= k < prior.len() implies new_rules@[k] == prior[k] by {}
                assert(new_rules.deep_view() =~= prior_dv.push(made_dv));
                assert(new_rules.deep_view() =~= before + class_rules(rs.take(j + 1), prefix, pseudo));
            }
            j = j + 1;
        }
        assert(rs.take(rs.len() as int) =~= rs);
        assert(ids.take(i + 1).drop_last() =~= ids.take(i as int));
        i = i + 1;
    }
    assert(ids.take(ids.len() as int) =~= ids);
    new_rules
}

/// Every rule list of `rules_by_id`, one after another, in id order.
fn gather_rules(rules_by_id: &StrMap<Vec<CSSRule>>) -> (r: Vec<CSSRule>)
    ensures
        r.deep_view() == all_rules(rules_by_id@),
{
    let ghost by_id = rules_by_id@;
    let mut all: Vec<CSSRule> = Vec::new();
    let n = rules_by_id.len();
    let mut i: usize = 0;
    assert(by_id.take(0) =~= Seq::<(Seq<char>, Seq<RuleModel>)>::empty());
    while i < n
        invariant
            by_id == rules_by_id@,
            n == by_id.len(),
            i <= n,
            all.deep_view() == all_rules(by_id.take(i as int)),
        decreases n - i,
    {
        let mut rules = duplicate_rules(rules_by_id.value_at(i));
        let ghost front = all.deep_view();
        let ghost back = rules.deep_view();
        let ghost fa = all@;
        let ghost ra = rules@;
        all.append(&mut rules);
        assert forall|k: int| 0 <= k < all@.len() implies #[trigger] all@[k] == (if k < fa.len() { fa[k] } else { ra[k - fa.len()] }) by {}
        assert(all.deep_view() =~= front + back);
        assert(by_id.take(i + 1).drop_last() =~= by_id.take(i as int));
        i = i + 1;
    }
    assert(by_id.take(n as int) =~= by_id);
    all
}

/// Runs the instructions of `config` in order and gathers every list of rules
/// they make, in instruction-id order; or gives the message of the first
/// instruction that cannot run: one whose variable group does not exist, or
/// that modifies a list that does not exist when its turn comes.
pub fn try_generate_rules(config: &Config) -> (r: Result<Vec<CSSRule>, String>)
    ensures
        r is Ok <==> runnable(config.variable_groups@, config.instructions.deep_view()),
        r matches Ok(rules) ==> rules.deep_view() == all_rules(
            run_model(config.variable_groups@, config.instructions.deep_view()),
        ),
        r matches Err(msg) ==> msg@ == run_error(config.variable_groups@, config.instructions.deep_view()),
{
    let ghost g = config.variable_groups@;
    let ghost insts = config.instructions.deep_view();
    let mut rules_by_id: StrMap<Vec<CSSRule>> = StrMap::new();
    let mut i: usize = 0;
    assert(insts.take(0) =~= Seq::<InstructionModel>::empty());
    while i < config.instructions.len()
        invariant
            g == config.variable_groups@,
            insts == config.instructions.deep_view(),
            i <= insts.len(),
            runnable(g, insts.take(i as int)),
            rules_by_id@ == run_model(g, insts.take(i as int)),
        decreases config.instructions.len() - i,
    {
        let ghost prev = rules_by_id@;
        assert(insts.take(i + 1).drop_last() =~= insts.take(i as int));
        assert(insts[i as int] == config.instructions[i as int].deep_view());
        match &config.instructions[i] {
            Instruction::SingleRuleFromVariableGroup(inst) => {
                if config.variable_groups.get(inst.variable_group.as_str()).is_none() {
                    proof {
                        lemma_run_fails_at(g, insts, i as int);
                    }
                    return Err(err_msg_for_missing_map(inst.description.as_str(), inst.variable_group.as_str()));
                }
                let rules = single_rule_from_variable_group(config, inst);
                rules_by_id.insert(inst.id.clone(), rules);
            },
            Instruction::ManyRulesFromVariableGroup(inst) => {
                if config.variable_groups.get(inst.variable_group.as_str()).is_none() {
                    proof {
                        lemma_run_fails_at(g, insts, i as int);
                    }
                    return Err(err_msg_for_missing_map(inst.description.as_str(), inst.variable_group.as_str()));
                }
                let rules = many_rules_from_variable_group(config, inst);
                rules_by_id.insert(inst.id.clone(), rules);
            },
            Instruction::AddClassModifier(inst) => {
                let ghost ids = inst.affected_ids.deep_view();
                let mut k: usize = 0;
                assert(ids.skip(0) =~= ids);
                assert(ids.take(0) =~= Seq::<Seq<char>>::empty());
                while k < inst.affected_ids.len()
                    invariant
                        g == config.variable_groups@,
                        insts == config.instructions.deep_view(),
                        i < insts.len(),
                        insts[i as int] == inst.model(),
                        runnable(g, insts.take(i as int)),
                        prev == run_model(g, insts.take(i as int)),
                        ids == inst.affected_ids.deep_view(),
                        prev == rules_by_id@,
                        k <= ids.len(),
                        all_listed(prev, ids.take(k as int)),
                        first_unlisted(prev, ids) == first_unlisted(prev, ids.skip(k as int)),
                    decreases inst.affected_ids.len() - k,
                {
                    assert(ids[k as int] == inst.affected_ids[k as int]@);
                    if rules_by_id.get(inst.affected_ids[k].as_str()).is_none() {
                        proof {
                            lemma_run_fails_at(g, insts, i as int);
                        }
                        return Err(err_msg_for_missing_instruction(inst.description.as_str(), inst.affected_ids[k].as_str()));
                    }
                    assert(ids.skip(k as int).drop_first() =~= ids.skip(k + 1));
                    assert(ids.take(k + 1) =~= ids.take(k as int).push(ids[k as int]));
                    k = k + 1;
                }
                assert(ids.take(ids.len() as int) =~= ids);
                let rules = add_class_modifier(inst, &rules_by_id);
                rules_by_id.insert(inst.id.clone(), rules);
            },
        }
        i = i + 1;
    }
    assert(insts.take(insts.len() as int) =~= insts);
    Ok(gather_rules(&rules_by_id))
}

/// Runs the instructions of `config` in order and gathers every list of rules
/// they make, in instruction-id order.
pub fn generate_rules(config: Config) -> (r: Vec<CSSRule>)
    requires
        runnable(config.variable_groups@, config.instructions.deep_view()),
    ensures
        r.deep_view() == all_rules(run_model(config.variable_groups@, config.instructions.deep_view())),
{
    match try_generate_rules(&config) {
        Ok(rules) => rules,
        Err(_) => {
            assert(false);
            Vec::new()
        },
    }
}

/// Writes out rules as CSS, one line per rule.
pub fn stringify_rules(rules: Vec<CSSRule>) -> (css: String)
    ensures
        css@ == rules_text(rules.deep_view()),
{
    render_rules(&rules)
}

} // verus!
