//! Templates: blocks of declarations under atom names, expanded into
//! transformations. An atom name may loop over a variable map declared in the
//! same template, or over a token group; breakpoints and pseudo-classes from
//! the options add copies of the atoms.

use vstd::prelude::*;
use indexmap::IndexMap;
use crate::css::{CSSRule, Declarations, RuleModel, lemma_push_deep_view};
use crate::index_map::{block_entries, block_map_entry, block_map_get, block_map_insert, block_map_len, new_block_map, str_map_clone, str_map_get, breakpoint_entries, breakpoint_map_entry, breakpoint_map_len, new_breakpoint_map, new_str_map, str_entries, str_map_entry, str_map_len};
use crate::strmap::{StrMap, has_key, index_insert, lookup, lemma_lookup_at, lemma_lookup_none, lemma_sorted_distinct, sorted_keys};
use crate::text::{contains, occurs_in, replace, replace_all, same_text, trim, trimmed};
use crate::pattern::{Pattern, compile, is_match, regex_compiles, regex_is_match, regex_replace, replace_match};
use crate::transformation::{
    CopyExistingRules, FromTokenGroup, GroupsModel, ManyRulesFromTokenGroup, NoTransformation,
    TokenGroups, Transformation, TransformationModel, Transformations, id_of,
};

verus! {

/// How breakpoint and pseudo-class names join atom names.
#[derive(Clone, Copy, PartialEq, Eq, Structural)]
pub enum BreakpointModifierStyle {
    Prefix,
    Suffix,
}

/// How atoms are selected: by class, or by data attribute.
#[derive(Clone, Copy, PartialEq, Eq, Structural)]
pub enum AtomStyle {
    ClassAttribute,
    DataAttribute,
}

/// A breakpoint: the widths between which it applies.
pub struct Breakpoint {
    pub min_width: Option<String>,
    pub max_width: Option<String>,
}

/// The options of the generator.
pub struct Options {
    pub non_atom_identifier: String,
    pub atom_style: AtomStyle,
    pub pseudo_classes: IndexMap<String, String>,
    pub breakpoints: IndexMap<String, Breakpoint>,
    pub breakpoint_modifier_style: BreakpointModifierStyle,
    pub breakpoint_modifier_seperator: String,
    pub root_variable_prefix: String,
}

/// What the options say.
pub struct OptionsModel {
    pub non_atom_identifier: Seq<char>,
    pub atom_style: AtomStyle,
    pub pseudo_classes: Seq<(Seq<char>, Seq<char>)>,
    pub breakpoints: Seq<(Seq<char>, (Option<Seq<char>>, Option<Seq<char>>))>,
    pub modifier_style: BreakpointModifierStyle,
    pub separator: Seq<char>,
    pub root_variable_prefix: Seq<char>,
}

impl View for Options {
    type V = OptionsModel;

    open spec fn view(&self) -> OptionsModel {
        OptionsModel {
            non_atom_identifier: self.non_atom_identifier@,
            atom_style: self.atom_style,
            pseudo_classes: str_entries(self.pseudo_classes),
            breakpoints: breakpoint_entries(self.breakpoints),
            modifier_style: self.breakpoint_modifier_style,
            separator: self.breakpoint_modifier_seperator@,
            root_variable_prefix: self.root_variable_prefix@,
        }
    }
}

impl Default for Options {
    /// No pseudo-classes or breakpoints, atoms selected by class, `__non_atom__`
    /// marking names that are not atoms, modifiers prefixed with `\:`, root
    /// variables prefixed with `_`.
    fn default() -> (o: Self)
        ensures
            o@.non_atom_identifier == "__non_atom__"@,
            o@.atom_style == AtomStyle::ClassAttribute,
            o@.pseudo_classes == Seq::<(Seq<char>, Seq<char>)>::empty(),
            o@.breakpoints == Seq::<(Seq<char>, (Option<Seq<char>>, Option<Seq<char>>))>::empty(),
            o@.modifier_style == BreakpointModifierStyle::Prefix,
            o@.separator == "\\:"@,
            o@.root_variable_prefix == "_"@,
    {
        Options {
            non_atom_identifier: String::from_str("__non_atom__"),
            atom_style: AtomStyle::ClassAttribute,
            pseudo_classes: new_str_map(),
            breakpoints: new_breakpoint_map(),
            breakpoint_modifier_style: BreakpointModifierStyle::Prefix,
            breakpoint_modifier_seperator: String::from_str("\\:"),
            root_variable_prefix: String::from_str("_"),
        }
    }
}

/// A template: atom names with their blocks, in order.
pub type CSSTemplate = IndexMap<String, SugarBlock>;

/// A block: CSS property to CSS value, in order.
pub type SugarBlock = IndexMap<String, String>;

/// Which copies a template's atoms get.
pub struct TemplateOptions {
    pub include_breakpoints: bool,
    pub include_pseudo_classes: bool,
}

impl Default for TemplateOptions {
    /// Atoms get breakpoint and pseudo-class copies.
    fn default() -> (t: Self)
        ensures
            t.include_breakpoints,
            t.include_pseudo_classes,
    {
        TemplateOptions { include_breakpoints: true, include_pseudo_classes: true }
    }
}

/// The selector for an atom name: the name without the non-atom marker,
/// trimmed, where the marker occurs in it; else the trimmed name as a class or
/// as a data attribute.
pub open spec fn selector_for(atom_name: Seq<char>, o: OptionsModel) -> Seq<char> {
    if occurs_in(atom_name, o.non_atom_identifier) {
        trimmed(replace_all(atom_name, o.non_atom_identifier, ""@))
    } else {
        match o.atom_style {
            AtomStyle::ClassAttribute => "."@ + trimmed(atom_name),
            AtomStyle::DataAttribute => "["@ + trimmed(atom_name) + "='']"@,
        }
    }
}

/// The selector for an atom name.
pub fn get_selector(atom_name: &str, options: &Options) -> (s: String)
    ensures
        s@ == selector_for(atom_name@, options@),
{
    if contains(atom_name, options.non_atom_identifier.as_str()) {
        let without = replace(atom_name, options.non_atom_identifier.as_str(), "");
        return trim(without.as_str());
    }
    let name = trim(atom_name);
    let mut s = String::new();
    match options.atom_style {
        AtomStyle::ClassAttribute => {
            s.append(".");
            s.append(name.as_str());
        },
        AtomStyle::DataAttribute => {
            s.append("[");
            s.append(name.as_str());
            s.append("='']");
        },
    }
    s
}

/// The media query of a breakpoint: none without widths; else `@media ` with
/// `(min-width: ..)`, `(max-width: ..)`, or both joined by ` and `.
pub open spec fn media_query(min_width: Option<Seq<char>>, max_width: Option<Seq<char>>) -> Option<Seq<char>> {
    if min_width is None && max_width is None {
        None
    } else {
        let min_part = match min_width {
            Some(v) => "(min-width: "@ + v + ")"@,
            None => Seq::empty(),
        };
        let max_part = match max_width {
            Some(v) => if min_width is Some {
                " and "@ + "(max-width: "@ + v + ")"@
            } else {
                "(max-width: "@ + v + ")"@
            },
            None => Seq::empty(),
        };
        Some("@media "@ + min_part + max_part)
    }
}

/// The media query of a breakpoint.
pub fn build_media_query(bp: &Breakpoint) -> (q: Option<String>)
    ensures
        q.deep_view() == media_query(bp.min_width.deep_view(), bp.max_width.deep_view()),
{
    if bp.max_width.is_none() && bp.min_width.is_none() {
        return None;
    }
    let mut at_rule_identifier = String::new();
    at_rule_identifier.append("@media ");
    match &bp.min_width {
        None => {},
        Some(value) => {
            at_rule_identifier.append("(min-width: ");
            at_rule_identifier.append(value.as_str());
            at_rule_identifier.append(")");
        },
    }
    match &bp.max_width {
        None => {},
        Some(value) => {
            if bp.min_width.is_some() {
                at_rule_identifier.append(" and ");
            }
            at_rule_identifier.append("(max-width: ");
            at_rule_identifier.append(value.as_str());
            at_rule_identifier.append(")");
        },
    }
    Some(at_rule_identifier)
}

/// The placeholder for the selector a copied rule came from.
pub open spec fn previous_selector_marker(style: AtomStyle) -> Seq<char> {
    match style {
        AtomStyle::ClassAttribute => "{{ PREV_SELECTOR_CLASS_NAME }}"@,
        AtomStyle::DataAttribute => "{{ PREV_SELECTOR_DATA_ATTR }}"@,
    }
}

/// `base` with the modifier `name` joined before or after it.
pub open spec fn with_modifier(name: Seq<char>, base: Seq<char>, o: OptionsModel) -> Seq<char> {
    match o.modifier_style {
        BreakpointModifierStyle::Prefix => name + o.separator + base,
        BreakpointModifierStyle::Suffix => base + o.separator + name,
    }
}

/// Joins the modifier `name` to `base` as the options say.
fn join_modifier(name: &str, base: &str, options: &Options) -> (s: String)
    ensures
        s@ == with_modifier(name@, base@, options@),
{
    let mut s = String::new();
    match options.breakpoint_modifier_style {
        BreakpointModifierStyle::Prefix => {
            s.append(name);
            s.append(options.breakpoint_modifier_seperator.as_str());
            s.append(base);
        },
        BreakpointModifierStyle::Suffix => {
            s.append(base);
            s.append(options.breakpoint_modifier_seperator.as_str());
            s.append(name);
        },
    }
    s
}

/// The placeholder for the previous selector, as the options' atom style has
/// it.
fn marker_for(options: &Options) -> (s: String)
    ensures
        s@ == previous_selector_marker(options@.atom_style),
{
    match options.atom_style {
        AtomStyle::ClassAttribute => String::from_str("{{ PREV_SELECTOR_CLASS_NAME }}"),
        AtomStyle::DataAttribute => String::from_str("{{ PREV_SELECTOR_DATA_ATTR }}"),
    }
}

/// The copies that the breakpoints of `bps` make of the atoms `ids`: one
/// at-rule block per breakpoint with a media query, in order.
pub open spec fn breakpoint_transforms(
    ids: Seq<Seq<char>>,
    o: OptionsModel,
    bps: Seq<(Seq<char>, (Option<Seq<char>>, Option<Seq<char>>))>,
) -> Seq<TransformationModel>
    decreases bps.len(),
{
    if bps.len() == 0 {
        Seq::empty()
    } else {
        let front = breakpoint_transforms(ids, o, bps.drop_last());
        let (name, widths) = bps.last();
        match media_query(widths.0, widths.1) {
            None => front,
            Some(q) => front.push(
                TransformationModel::Copy {
                    id: "breakpoint-"@ + name,
                    description: Seq::empty(),
                    affected_ids: ids,
                    at_rule: Some(q),
                    new_selector: selector_for(with_modifier(name, previous_selector_marker(o.atom_style), o), o),
                },
            ),
        }
    }
}

/// The copies that the pseudo-classes of `pcs` make of the atoms `ids`: one
/// per pseudo-class, in order.
pub open spec fn pseudo_class_transforms(
    ids: Seq<Seq<char>>,
    o: OptionsModel,
    pcs: Seq<(Seq<char>, Seq<char>)>,
) -> Seq<TransformationModel>
    decreases pcs.len(),
{
    if pcs.len() == 0 {
        Seq::empty()
    } else {
        let (name, pseudo_class) = pcs.last();
        pseudo_class_transforms(ids, o, pcs.drop_last()).push(
            TransformationModel::Copy {
                id: "pseudo-class-"@ + name,
                description: Seq::empty(),
                affected_ids: ids,
                at_rule: None,
                new_selector: selector_for(
                    with_modifier(name, previous_selector_marker(o.atom_style) + ":"@ + pseudo_class, o),
                    o,
                ),
            },
        )
    }
}

/// A media query names each width the breakpoint has: none without widths,
/// `@media (min-width: a)`, `@media (max-width: b)`, or both joined by ` and `.
pub proof fn lemma_media_query_widths(min_width: Option<Seq<char>>, max_width: Option<Seq<char>>)
    ensures
        media_query(min_width, max_width) is Some <==> (min_width is Some || max_width is Some),
        min_width is Some && max_width is None ==> media_query(min_width, max_width) == Some(
            "@media (min-width: "@ + min_width->0 + ")"@,
        ),
        min_width is None && max_width is Some ==> media_query(min_width, max_width) == Some(
            "@media (max-width: "@ + max_width->0 + ")"@,
        ),
        min_width is Some && max_width is Some ==> media_query(min_width, max_width) == Some(
            "@media (min-width: "@ + min_width->0 + ") and (max-width: "@ + max_width->0 + ")"@,
        ),
{
    reveal_strlit("@media ");
    reveal_strlit("(min-width: ");
    reveal_strlit("(max-width: ");
    reveal_strlit(")");
    reveal_strlit(" and ");
    reveal_strlit("@media (min-width: ");
    reveal_strlit("@media (max-width: ");
    reveal_strlit(") and (max-width: ");
    match (min_width, max_width) {
        (Some(a), None) => {
            assert("@media "@ + ("(min-width: "@ + a + ")"@) + Seq::<char>::empty() =~= "@media (min-width: "@ + a + ")"@);
        },
        (None, Some(b)) => {
            assert("@media "@ + Seq::<char>::empty() + ("(max-width: "@ + b + ")"@) =~= "@media (max-width: "@ + b + ")"@);
        },
        (Some(a), Some(b)) => {
            assert("@media "@ + ("(min-width: "@ + a + ")"@) + (" and "@ + "(max-width: "@ + b + ")"@)
                =~= "@media (min-width: "@ + a + ") and (max-width: "@ + b + ")"@);
        },
        (None, None) => {},
    }
}

/// Every breakpoint that has a width, minimum or maximum, makes a copy of the
/// atoms `ids` into the at-rule block of its media query, named after the
/// breakpoint and with the breakpoint as modifier; only breakpoints without
/// widths make none. Every copy made is of that kind.
pub proof fn lemma_breakpoint_copies(
    ids: Seq<Seq<char>>,
    o: OptionsModel,
    bps: Seq<(Seq<char>, (Option<Seq<char>>, Option<Seq<char>>))>,
)
    ensures
        breakpoint_transforms(ids, o, bps).len() <= bps.len(),
        forall|i: int|
            0 <= i < bps.len() && (bps[i].1.0 is Some || bps[i].1.1 is Some) ==> exists|j: int|
                0 <= j < breakpoint_transforms(ids, o, bps).len()
                    && #[trigger] breakpoint_transforms(ids, o, bps)[j] == (TransformationModel::Copy {
                    id: "breakpoint-"@ + #[trigger] bps[i].0,
                    description: Seq::empty(),
                    affected_ids: ids,
                    at_rule: media_query(bps[i].1.0, bps[i].1.1),
                    new_selector: selector_for(with_modifier(bps[i].0, previous_selector_marker(o.atom_style), o), o),
                }),
        forall|j: int|
            0 <= j < breakpoint_transforms(ids, o, bps).len() ==> (#[trigger] breakpoint_transforms(ids, o, bps)[j] matches
                TransformationModel::Copy { at_rule, affected_ids, .. } && at_rule is Some && affected_ids == ids),
    decreases bps.len(),
{
    if bps.len() > 0 {
        let front_bps = bps.drop_last();
        lemma_breakpoint_copies(ids, o, front_bps);
        let front = breakpoint_transforms(ids, o, front_bps);
        let all = breakpoint_transforms(ids, o, bps);
        let n = bps.len() - 1;
        lemma_media_query_widths(bps[n].1.0, bps[n].1.1);
        assert forall|j: int| 0 <= j < front.len() implies all[j] == front[j] by {}
        assert forall|i: int|
            0 <= i < bps.len() && (bps[i].1.0 is Some || bps[i].1.1 is Some) implies exists|j: int|
                0 <= j < all.len()
                    && #[trigger] all[j] == (TransformationModel::Copy {
                    id: "breakpoint-"@ + #[trigger] bps[i].0,
                    description: Seq::empty(),
                    affected_ids: ids,
                    at_rule: media_query(bps[i].1.0, bps[i].1.1),
                    new_selector: selector_for(with_modifier(bps[i].0, previous_selector_marker(o.atom_style), o), o),
                }) by {
            if i < n {
                assert(front_bps[i] == bps[i]);
                let j = choose|j: int|
                    0 <= j < front.len()
                        && #[trigger] front[j] == (TransformationModel::Copy {
                        id: "breakpoint-"@ + #[trigger] front_bps[i].0,
                        description: Seq::empty(),
                        affected_ids: ids,
                        at_rule: media_query(front_bps[i].1.0, front_bps[i].1.1),
                        new_selector: selector_for(with_modifier(front_bps[i].0, previous_selector_marker(o.atom_style), o), o),
                    });
                assert(all[j] == front[j]);
            } else {
                assert(all[front.len() as int] == all.last());
            }
        }
    }
}

/// Every pseudo-class `name -> pc` makes one copy of the atoms `ids`, in
/// order, named after it: the copy's selector is the modifier `name` joined
/// to the previous selector followed by `:` and `pc`.
pub proof fn lemma_pseudo_class_copies(ids: Seq<Seq<char>>, o: OptionsModel, pcs: Seq<(Seq<char>, Seq<char>)>)
    ensures
        pseudo_class_transforms(ids, o, pcs).len() == pcs.len(),
        forall|i: int|
            0 <= i < pcs.len() ==> #[trigger] pseudo_class_transforms(ids, o, pcs)[i] == (TransformationModel::Copy {
                id: "pseudo-class-"@ + pcs[i].0,
                description: Seq::empty(),
                affected_ids: ids,
                at_rule: None,
                new_selector: selector_for(
                    match o.modifier_style {
                        BreakpointModifierStyle::Prefix => pcs[i].0 + o.separator + previous_selector_marker(o.atom_style)
                            + ":"@ + pcs[i].1,
                        BreakpointModifierStyle::Suffix => previous_selector_marker(o.atom_style) + ":"@ + pcs[i].1
                            + o.separator + pcs[i].0,
                    },
                    o,
                ),
            }),
    decreases pcs.len(),
{
    if pcs.len() > 0 {
        let front_pcs = pcs.drop_last();
        lemma_pseudo_class_copies(ids, o, front_pcs);
        let all = pseudo_class_transforms(ids, o, pcs);
        let n = pcs.len() - 1;
        assert forall|i: int| 0 <= i < pcs.len() implies #[trigger] all[i] == (TransformationModel::Copy {
            id: "pseudo-class-"@ + pcs[i].0,
            description: Seq::empty(),
            affected_ids: ids,
            at_rule: None,
            new_selector: selector_for(
                match o.modifier_style {
                    BreakpointModifierStyle::Prefix => pcs[i].0 + o.separator + previous_selector_marker(o.atom_style)
                        + ":"@ + pcs[i].1,
                    BreakpointModifierStyle::Suffix => previous_selector_marker(o.atom_style) + ":"@ + pcs[i].1
                        + o.separator + pcs[i].0,
                },
                o,
            ),
        }) by {
            let marker = previous_selector_marker(o.atom_style);
            assert(pcs[i].0 + o.separator + (marker + ":"@ + pcs[i].1) =~= pcs[i].0 + o.separator + marker + ":"@ + pcs[i].1);
            if i < n {
                assert(front_pcs[i] == pcs[i]);
                assert(all[i] == pseudo_class_transforms(ids, o, front_pcs)[i]);
            }
        }
    }
}

/// A copy of each string.
fn duplicate_strings(v: &Vec<String>) -> (r: Vec<String>)
    ensures
        r.deep_view() == v.deep_view(),
{
    let mut out: Vec<String> = Vec::new();
    let mut i: usize = 0;
    while i < v.len()
        invariant
            i <= v.len(),
            out.deep_view() == v.deep_view().take(i as int),
        decreases v.len() - i,
    {
        let ghost prior = out;
        let s = v[i].clone();
        out.push(s);
        proof {
            lemma_push_deep_view(prior, out, s);
        }
        assert(out.deep_view() =~= v.deep_view().take(i + 1));
        i = i + 1;
    }
    assert(v.deep_view().take(v.len() as int) =~= v.deep_view());
    out
}

/// The copies that the breakpoints of the options make of the atoms
/// `affected_ids`: into a media-query block for each breakpoint that has a
/// width, under the breakpoint's modifier.
pub fn get_breakpoints(affected_ids: Vec<String>, options: &Options) -> (r: Vec<Transformation>)
    ensures
        r.deep_view() == breakpoint_transforms(affected_ids.deep_view(), options@, options@.breakpoints),
{
    let ghost bps = options@.breakpoints;
    let ghost ids = affected_ids.deep_view();
    let mut list: Vec<Transformation> = Vec::new();
    let n = breakpoint_map_len(&options.breakpoints);
    let mut i: usize = 0;
    assert(bps.take(0) =~= Seq::<(Seq<char>, (Option<Seq<char>>, Option<Seq<char>>))>::empty());
    while i < n
        invariant
            bps == options@.breakpoints,
            ids == affected_ids.deep_view(),
            n == bps.len(),
            i <= n,
            list.deep_view() == breakpoint_transforms(ids, options@, bps.take(i as int)),
        decreases n - i,
    {
        assert(bps.take(i + 1).drop_last() =~= bps.take(i as int));
        assert(bps.take(i + 1).last() == bps[i as int]);
        match breakpoint_map_entry(&options.breakpoints, i) {
            None => {
                assert(false);
            },
            Some((name, bp)) => {
                match build_media_query(bp) {
                    None => {},
                    Some(at_rule_identifier) => {
                        let marker = marker_for(options);
                        let selector = join_modifier(name.as_str(), marker.as_str(), options);
                        let mut id = String::from_str("breakpoint-");
                        id.append(name.as_str());
                        let config = CopyExistingRules {
                            id,
                            description: String::new(),
                            at_rule_identifier: Some(at_rule_identifier),
                            affected_ids: duplicate_strings(&affected_ids),
                            new_selector: get_selector(selector.as_str(), options),
                        };
                        let t = Transformation::CopyExistingRules(config);
                        let ghost prior = list;
                        list.push(t);
                        proof {
                            lemma_push_deep_view(prior, list, t);
                        }
                    },
                }
            },
        }
        i = i + 1;
    }
    assert(bps.take(n as int) =~= bps);
    list
}

/// The copies that the pseudo-classes of the options make of the atoms
/// `affected_ids`, under each pseudo-class's modifier.
pub fn get_pseudo_class_transforms(affected_ids: Vec<String>, options: &Options) -> (r: Vec<Transformation>)
    ensures
        r.deep_view() == pseudo_class_transforms(affected_ids.deep_view(), options@, options@.pseudo_classes),
{
    let ghost pcs = options@.pseudo_classes;
    let ghost ids = affected_ids.deep_view();
    let mut list: Vec<Transformation> = Vec::new();
    let n = str_map_len(&options.pseudo_classes);
    let mut i: usize = 0;
    assert(pcs.take(0) =~= Seq::<(Seq<char>, Seq<char>)>::empty());
    while i < n
        invariant
            pcs == options@.pseudo_classes,
            ids == affected_ids.deep_view(),
            n == pcs.len(),
            i <= n,
            list.deep_view() == pseudo_class_transforms(ids, options@, pcs.take(i as int)),
        decreases n - i,
    {
        assert(pcs.take(i + 1).drop_last() =~= pcs.take(i as int));
        assert(pcs.take(i + 1).last() == pcs[i as int]);
        match str_map_entry(&options.pseudo_classes, i) {
            None => {
                assert(false);
            },
            Some((name, pseudo_class)) => {
                let mut base = marker_for(options);
                base.append(":");
                base.append(pseudo_class.as_str());
                let selector = join_modifier(name.as_str(), base.as_str(), options);
                let mut id = String::from_str("pseudo-class-");
                id.append(name.as_str());
                let config = CopyExistingRules {
                    id,
                    description: String::new(),
                    at_rule_identifier: None,
                    affected_ids: duplicate_strings(&affected_ids),
                    new_selector: get_selector(selector.as_str(), options),
                };
                let t = Transformation::CopyExistingRules(config);
                let ghost prior = list;
                list.push(t);
                proof {
                    lemma_push_deep_view(prior, list, t);
                }
            },
        }
        i = i + 1;
    }
    assert(pcs.take(n as int) =~= pcs);
    list
}

/// The transformations that declare the root variables of token groups: for
/// each group, one rule on `:root` declaring `--<prefix><key>` as the value of
/// each token.
pub open spec fn root_variable_transforms(groups: GroupsModel, prefix: Seq<char>) -> Seq<TransformationModel> {
    Seq::new(
        groups.len(),
        |i: int|
            TransformationModel::Single {
                id: "root-variables-"@ + groups[i].0,
                description: Seq::empty(),
                group: groups[i].0,
                selector: ":root"@,
                declarations: seq![("--"@ + prefix + "{{ KEY }}"@, "{{ VAL }}"@)],
            },
    )
}

/// Each token group gets its own root-variable transformation, in order: the
/// transformation at position `i` is named after the group at `i`, reads that
/// group (a lookup of its group name gives that group's tokens) and declares
/// `--<prefix><key>` as `<value>` on `:root`.
pub proof fn lemma_root_variables_read_their_group(groups: GroupsModel, prefix: Seq<char>)
    requires
        sorted_keys(groups),
    ensures
        root_variable_transforms(groups, prefix).len() == groups.len(),
        forall|i: int|
            0 <= i < groups.len() ==> (#[trigger] root_variable_transforms(groups, prefix)[i] matches
                TransformationModel::Single { id, group, selector, declarations, .. }
                && group == groups[i].0
                && id == "root-variables-"@ + group
                && lookup(groups, group) == Some(groups[i].1)
                && selector == ":root"@
                && declarations == seq![("--"@ + prefix + "{{ KEY }}"@, "{{ VAL }}"@)]),
{
    lemma_sorted_distinct(groups);
    assert forall|i: int| 0 <= i < groups.len() implies lookup(groups, #[trigger] groups[i].0) == Some(groups[i].1) by {
        lemma_lookup_at(groups, groups[i].0, i);
    }
}

/// The transformations that declare every token of every group as a root
/// variable.
pub fn transformations_from_tokens(tokens: &TokenGroups, options: &Options) -> (r: Transformations)
    ensures
        r.deep_view() == root_variable_transforms(tokens@, options@.root_variable_prefix),
{
    let ghost groups = tokens@;
    let ghost all = root_variable_transforms(groups, options@.root_variable_prefix);
    let mut list: Vec<Transformation> = Vec::new();
    let n = tokens.len();
    let mut i: usize = 0;
    while i < n
        invariant
            groups == tokens@,
            all == root_variable_transforms(groups, options@.root_variable_prefix),
            n == groups.len(),
            i <= n,
            list.deep_view() == all.take(i as int),
        decreases n - i,
    {
        let id = tokens.key_at(i);
        let mut root_variable_name = String::from_str("--");
        root_variable_name.append(options.root_variable_prefix.as_str());
        root_variable_name.append("{{ KEY }}");
        let mut declarations: Declarations = Declarations::new();
        let ghost name_view = root_variable_name@;
        let value = String::from_str("{{ VAL }}");
        let ghost value_view = value@;
        declarations.insert_in_order(root_variable_name, value);
        assert(declarations@ =~= seq![(name_view, value_view)]);
        let mut full_id = String::from_str("root-variables-");
        full_id.append(id.as_str());
        let config = FromTokenGroup {
            id: full_id,
            description: String::new(),
            selector: String::from_str(":root"),
            token_group_name: id.clone(),
            declarations,
        };
        let t = Transformation::SingleRuleFromTokenGroup(config);
        assert(t.deep_view() == all[i as int]);
        let ghost prior = list;
        list.push(t);
        proof {
            lemma_push_deep_view(prior, list, t);
        }
        assert(list.deep_view() =~= all.take(i + 1));
        i = i + 1;
    }
    assert(all.take(n as int) =~= all);
    list
}


/// The source of the pattern that finds a loop over a token group in an atom
/// name: `[$group.key]` or `[$group.value]`.
pub open spec fn token_loop_source() -> Seq<char> {
    "(?P<before>.*)\\[\\$(?P<token_group_name>.*)(?P<key_or_value>(\\.key)|(\\.value))\\](?P<after>.*)"@
}

/// The source of the pattern that finds a loop over a variable map in an atom
/// name: `[$map.key]` or `[$map.value]`.
pub open spec fn variable_loop_source() -> Seq<char> {
    "(?P<before>.*)\\[\\$(?P<variable_map_name>.*)(?P<key_or_value>(\\.key)|(\\.value))\\](?P<after>.*)"@
}

/// The source of the pattern that finds the declaration of a variable map:
/// an atom name `$map`.
pub open spec fn declaration_source() -> Seq<char> {
    "^\\$(?P<variable_map_name>\\S+)$"@
}

/// The three patterns that templates are read with.
pub struct TemplatePatterns {
    pub token_loop: Pattern,
    pub variable_loop: Pattern,
    pub declaration: Pattern,
}

impl TemplatePatterns {
    /// Each pattern was compiled from its source.
    pub open spec fn wf(&self) -> bool {
        &&& self.token_loop.source() == token_loop_source()
        &&& self.variable_loop.source() == variable_loop_source()
        &&& self.declaration.source() == declaration_source()
    }

    /// Compiles the three patterns; `None` where one does not compile.
    pub fn compile() -> (r: Option<TemplatePatterns>)
        ensures
            r is Some <==> (regex_compiles(token_loop_source()) && regex_compiles(variable_loop_source())
                && regex_compiles(declaration_source())),
            r matches Some(p) ==> p.wf(),
    {
        let token_loop = compile("(?P<before>.*)\\[\\$(?P<token_group_name>.*)(?P<key_or_value>(\\.key)|(\\.value))\\](?P<after>.*)");
        let variable_loop = compile("(?P<before>.*)\\[\\$(?P<variable_map_name>.*)(?P<key_or_value>(\\.key)|(\\.value))\\](?P<after>.*)");
        let declaration = compile("^\\$(?P<variable_map_name>\\S+)$");
        match (token_loop, variable_loop, declaration) {
            (Some(token_loop), Some(variable_loop), Some(declaration)) => Some(
                TemplatePatterns { token_loop, variable_loop, declaration },
            ),
            _ => None,
        }
    }
}

/// What the three patterns find in an atom name: the name of the variable map
/// it declares, the name of the variable map it loops over and the name of
/// the token group it loops over, each `None` where its pattern does not
/// match.
pub struct AtomMatches {
    pub declared: Option<String>,
    pub variable_loop: Option<String>,
    pub token_loop: Option<String>,
}

/// The names that an atom name's matches hold.
pub struct AtomMatchesModel {
    pub declared: Option<Seq<char>>,
    pub variable_loop: Option<Seq<char>>,
    pub token_loop: Option<Seq<char>>,
}

impl DeepView for AtomMatches {
    type V = AtomMatchesModel;

    open spec fn deep_view(&self) -> AtomMatchesModel {
        AtomMatchesModel {
            declared: self.declared.deep_view(),
            variable_loop: self.variable_loop.deep_view(),
            token_loop: self.token_loop.deep_view(),
        }
    }
}

/// The named group `replacement` refers to, from the match of `pattern` in
/// `atom`; `None` where it does not match.
pub open spec fn captured(pattern: Seq<char>, atom: Seq<char>, replacement: Seq<char>) -> Option<Seq<char>> {
    if regex_is_match(pattern, atom) {
        Some(regex_replace(pattern, atom, replacement))
    } else {
        None
    }
}

/// What the three patterns find in `atom`.
pub open spec fn atom_matches(atom: Seq<char>) -> AtomMatchesModel {
    AtomMatchesModel {
        declared: captured(declaration_source(), atom, "$variable_map_name"@),
        variable_loop: captured(variable_loop_source(), atom, "$variable_map_name"@),
        token_loop: captured(token_loop_source(), atom, "$token_group_name"@),
    }
}

/// Where `pattern` matches `atom`, the atom with its match replaced by
/// `replacement`, which names a group of the pattern; `None` where it does not
/// match.
fn capture(pattern: &Pattern, atom: &str, replacement: &str) -> (r: Option<String>)
    ensures
        r.deep_view() == captured(pattern.source(), atom@, replacement@),
{
    if is_match(pattern, atom) {
        Some(replace_match(pattern, atom, replacement))
    } else {
        None
    }
}

/// Runs the three patterns on an atom name.
pub fn match_atom(atom: &str, patterns: &TemplatePatterns) -> (m: AtomMatches)
    requires
        patterns.wf(),
    ensures
        m.deep_view() == atom_matches(atom@),
{
    let declared = capture(&patterns.declaration, atom, "$variable_map_name");
    let variable_loop = capture(&patterns.variable_loop, atom, "$variable_map_name");
    let token_loop = capture(&patterns.token_loop, atom, "$token_group_name");
    proof {
        reveal_strlit("$variable_map_name");
        reveal_strlit("$token_group_name");
    }
    AtomMatches { declared, variable_loop, token_loop }
}

/// The text that `str::parse::<bool>` accepts.
pub open spec fn is_bool_text(v: Seq<char>) -> bool {
    v == "true"@ || v == "false"@
}

/// Reads `true` or `false` (`str::parse::<bool>`); `None` for any other text.
pub fn parse_bool(v: &str) -> (r: Option<bool>)
    ensures
        r is Some <==> is_bool_text(v@),
        r matches Some(b) ==> b == (v@ == "true"@),
{
    if same_text(v, "true") {
        Some(true)
    } else if same_text(v, "false") {
        proof {
            reveal_strlit("true");
            reveal_strlit("false");
        }
        Some(false)
    } else {
        None
    }
}

/// An `@options` block sets its options to `true` or `false`.
pub open spec fn options_block_ok(name: Seq<char>, block: Seq<(Seq<char>, Seq<char>)>) -> bool {
    name == "@options"@ ==> {
        &&& (lookup(block, "include_breakpoints"@) matches Some(v) ==> is_bool_text(v))
        &&& (lookup(block, "include_pseudo_classes"@) matches Some(v) ==> is_bool_text(v))
    }
}

/// The template options after an `@options` block: each option it names takes
/// the value given; the others stay.
pub open spec fn options_after(
    include_breakpoints: bool,
    include_pseudo_classes: bool,
    block: Seq<(Seq<char>, Seq<char>)>,
) -> (bool, bool) {
    (
        match lookup(block, "include_breakpoints"@) {
            Some(v) => v == "true"@,
            None => include_breakpoints,
        },
        match lookup(block, "include_pseudo_classes"@) {
            Some(v) => v == "true"@,
            None => include_pseudo_classes,
        },
    )
}

/// Reads an `@options` block into the template options; `false` for any other
/// atom name, which leaves them as they are.
pub fn detect_template_options(atom_name_template: &str, block: &SugarBlock, template_options: &mut TemplateOptions) -> (r: bool)
    requires
        options_block_ok(atom_name_template@, str_entries(*block)),
    ensures
        r == (atom_name_template@ == "@options"@),
        r ==> (final(template_options).include_breakpoints, final(template_options).include_pseudo_classes)
            == options_after(old(template_options).include_breakpoints, old(template_options).include_pseudo_classes, str_entries(*block)),
        !r ==> *final(template_options) == *old(template_options),
{
    if !same_text(atom_name_template, "@options") {
        return false;
    }
    proof {
        lemma_lookup_none(str_entries(*block), "include_breakpoints"@);
        lemma_lookup_none(str_entries(*block), "include_pseudo_classes"@);
    }
    match str_map_get(block, "include_breakpoints") {
        None => {},
        Some(value) => {
            match parse_bool(value.as_str()) {
                Some(b) => {
                    template_options.include_breakpoints = b;
                },
                None => {
                    assert(false);
                },
            }
        },
    }
    match str_map_get(block, "include_pseudo_classes") {
        None => {},
        Some(value) => {
            match parse_bool(value.as_str()) {
                Some(b) => {
                    template_options.include_pseudo_classes = b;
                },
                None => {
                    assert(false);
                },
            }
        },
    }
    true
}

/// The name of the variable map that an atom name declares.
pub open spec fn declared_map_name(atom: Seq<char>) -> Seq<char> {
    regex_replace(declaration_source(), atom, "$variable_map_name"@)
}

/// Stores the block as the variable map `declared` names, if it names one.
pub fn declare_variable_map(
    declared: &Option<String>,
    block: &SugarBlock,
    variable_maps: &mut IndexMap<String, IndexMap<String, String>>,
) -> (r: bool)
    ensures
        r == declared is Some,
        block_entries(*final(variable_maps)) == match declared.deep_view() {
            Some(name) => index_insert(block_entries(*old(variable_maps)), name, str_entries(*block)),
            None => block_entries(*old(variable_maps)),
        },
{
    match declared {
        Some(name) => {
            block_map_insert(variable_maps, name.clone(), str_map_clone(block));
            true
        },
        None => false,
    }
}

/// Reads the declaration of a variable map: where the atom name is `$name`,
/// the block is stored as the map `name`.
pub fn detect_variable_map_declaration(
    atom_name_template: &str,
    block: &SugarBlock,
    variable_maps: &mut IndexMap<String, IndexMap<String, String>>,
    pattern: &Pattern,
) -> (r: bool)
    requires
        pattern.source() == declaration_source(),
    ensures
        r == regex_is_match(declaration_source(), atom_name_template@),
        block_entries(*final(variable_maps)) == if r {
            index_insert(block_entries(*old(variable_maps)), declared_map_name(atom_name_template@), str_entries(*block))
        } else {
            block_entries(*old(variable_maps))
        },
{
    let declared = capture(pattern, atom_name_template, "$variable_map_name");
    proof {
        reveal_strlit("$variable_map_name");
    }
    declare_variable_map(&declared, block, variable_maps)
}

/// `s` with the variable `$name.key` and `$name.value` references replaced by
/// the key and the value.
pub open spec fn substitute(s: Seq<char>, name: Seq<char>, key: Seq<char>, value: Seq<char>) -> Seq<char> {
    replace_all(replace_all(s, "$"@ + name + ".key"@, key), "$"@ + name + ".value"@, value)
}

/// The declarations of a block for one variable: each property and value with
/// the variable put in, kept in the order of the block; where two properties
/// come out the same, the later value takes the place of the first.
pub open spec fn substitute_block(
    block: Seq<(Seq<char>, Seq<char>)>,
    name: Seq<char>,
    key: Seq<char>,
    value: Seq<char>,
) -> Seq<(Seq<char>, Seq<char>)>
    decreases block.len(),
{
    if block.len() == 0 {
        Seq::empty()
    } else {
        let (p, v) = block.last();
        index_insert(substitute_block(block.drop_last(), name, key, value), substitute(p, name, key, value), substitute(v, name, key, value))
    }
}

/// The rule that a loop over a variable map makes for one variable.
pub open spec fn loop_rule(
    atom: Seq<char>,
    block: Seq<(Seq<char>, Seq<char>)>,
    name: Seq<char>,
    key: Seq<char>,
    value: Seq<char>,
    o: OptionsModel,
) -> RuleModel {
    RuleModel {
        selector: selector_for(
            replace_all(replace_all(atom, "[$"@ + name + ".key]"@, key), "[$"@ + name + ".value]"@, value),
            o,
        ),
        declarations: substitute_block(block, name, key, value),
    }
}

/// What a loop over the variable map `looped` makes: a rule for each variable
/// of the map, in order; nothing where there is no loop (`None`) or the map is
/// not declared.
pub open spec fn variable_loop_with(
    atom: Seq<char>,
    looped: Option<Seq<char>>,
    block: Seq<(Seq<char>, Seq<char>)>,
    maps: Seq<(Seq<char>, Seq<(Seq<char>, Seq<char>)>)>,
    o: OptionsModel,
) -> Option<TransformationModel> {
    match looped {
        None => None,
        Some(name) => if !has_key(maps, name) {
            None
        } else {
            let vm = lookup(maps, name)->0;
            Some(
                TransformationModel::Plain {
                    id: atom,
                    description: Seq::empty(),
                    at_rule: None,
                    rules: Seq::new(vm.len(), |i: int| loop_rule(atom, block, name, vm[i].0, vm[i].1, o)),
                },
            )
        },
    }
}

/// What a loop over a variable map makes: a rule for each variable of the
/// map, in order; nothing where the atom name has no loop or the map is not
/// declared.
pub open spec fn variable_loop(
    atom: Seq<char>,
    block: Seq<(Seq<char>, Seq<char>)>,
    maps: Seq<(Seq<char>, Seq<(Seq<char>, Seq<char>)>)>,
    o: OptionsModel,
) -> Option<TransformationModel> {
    variable_loop_with(atom, atom_matches(atom).variable_loop, block, maps, o)
}

/// `a` followed by `b` and `c`.
fn join3(a: &str, b: &str, c: &str) -> (s: String)
    ensures
        s@ == a@ + b@ + c@,
{
    let mut s = String::new();
    s.append(a);
    s.append(b);
    s.append(c);
    s
}

/// Expands a loop over a declared variable map: a rule for each variable.
pub fn detect_variable_map_loop(
    atom_name_template: &str,
    block: &SugarBlock,
    variable_maps: &IndexMap<String, IndexMap<String, String>>,
    options: &Options,
    pattern: &Pattern,
) -> (r: Option<NoTransformation>)
    requires
        pattern.source() == variable_loop_source(),
    ensures
        r is Some <==> variable_loop(atom_name_template@, str_entries(*block), block_entries(*variable_maps), options@) is Some,
        r matches Some(t) ==> variable_loop(atom_name_template@, str_entries(*block), block_entries(*variable_maps), options@) == Some(t.model()),
{
    let looped = capture(pattern, atom_name_template, "$variable_map_name");
    proof {
        reveal_strlit("$variable_map_name");
    }
    expand_variable_map_loop(atom_name_template, &looped, block, variable_maps, options)
}

/// Expands the loop of an atom name over the variable map `looped` names, if
/// it names one that is declared: a rule for each variable.
pub fn expand_variable_map_loop(
    atom_name_template: &str,
    looped: &Option<String>,
    block: &SugarBlock,
    variable_maps: &IndexMap<String, IndexMap<String, String>>,
    options: &Options,
) -> (r: Option<NoTransformation>)
    ensures
        r is Some <==> variable_loop_with(atom_name_template@, looped.deep_view(), str_entries(*block), block_entries(*variable_maps), options@) is Some,
        r matches Some(t) ==> variable_loop_with(atom_name_template@, looped.deep_view(), str_entries(*block), block_entries(*variable_maps), options@) == Some(t.model()),
{
    let variable_map_name = match looped {
        None => return None,
        Some(name) => name,
    };
    let variable_map = match block_map_get(variable_maps, variable_map_name.as_str()) {
        None => return None,
        Some(map) => map,
    };
    let ghost name = variable_map_name@;
    let ghost vm = str_entries(*variable_map);
    let ghost bm = str_entries(*block);
    let ghost all = Seq::new(vm.len(), |i: int| loop_rule(atom_name_template@, bm, name, vm[i].0, vm[i].1, options@));
    let key_list_replacer = join3("[$", variable_map_name.as_str(), ".key]");
    let value_list_replacer = join3("[$", variable_map_name.as_str(), ".value]");
    let key_replacer = join3("$", variable_map_name.as_str(), ".key");
    let value_replacer = join3("$", variable_map_name.as_str(), ".value");
    let mut rules: Vec<CSSRule> = Vec::new();
    let n = str_map_len(variable_map);
    let b = str_map_len(block);
    let mut i: usize = 0;
    while i < n
        invariant
            vm == str_entries(*variable_map),
            bm == str_entries(*block),
            n == vm.len(),
            b == bm.len(),
            all == Seq::new(vm.len(), |i: int| loop_rule(atom_name_template@, bm, name, vm[i].0, vm[i].1, options@)),
            key_list_replacer@ == "[$"@ + name + ".key]"@,
            value_list_replacer@ == "[$"@ + name + ".value]"@,
            key_replacer@ == "$"@ + name + ".key"@,
            value_replacer@ == "$"@ + name + ".value"@,
            i <= n,
            rules.deep_view() == all.take(i as int),
        decreases n - i,
    {
        let (key, value) = match str_map_entry(variable_map, i) {
            Some(e) => e,
            None => {
                assert(false);
                return None;
            },
        };
        let with_key = replace(atom_name_template, key_list_replacer.as_str(), key.as_str());
        let atom_name = replace(with_key.as_str(), value_list_replacer.as_str(), value.as_str());
        let selector = get_selector(atom_name.as_str(), options);
        let mut declarations: Declarations = Declarations::new();
        let mut j: usize = 0;
        assert(bm.take(0) =~= Seq::<(Seq<char>, Seq<char>)>::empty());
        while j < b
            invariant
                bm == str_entries(*block),
                b == bm.len(),
                key_replacer@ == "$"@ + name + ".key"@,
                value_replacer@ == "$"@ + name + ".value"@,
                j <= b,
                declarations@ == substitute_block(bm.take(j as int), name, key@, value@),
            decreases b - j,
        {
            let (block_key, block_val) = match str_map_entry(block, j) {
                Some(e) => e,
                None => {
                    assert(false);
                    return None;
                },
            };
            let p1 = replace(block_key.as_str(), key_replacer.as_str(), key.as_str());
            let css_property = replace(p1.as_str(), value_replacer.as_str(), value.as_str());
            let v1 = replace(block_val.as_str(), key_replacer.as_str(), key.as_str());
            let css_value = replace(v1.as_str(), value_replacer.as_str(), value.as_str());
            declarations.insert_in_order(css_property, css_value);
            assert(bm.take(j + 1).drop_last() =~= bm.take(j as int));
            assert(bm.take(j + 1).last() == bm[j as int]);
            j = j + 1;
        }
        assert(bm.take(b as int) =~= bm);
        let rule = CSSRule { selector, declarations };
        assert(rule.deep_view() == all[i as int]);
        let ghost prior = rules;
        rules.push(rule);
        proof {
            lemma_push_deep_view(prior, rules, rule);
        }
        assert(rules.deep_view() =~= all.take(i + 1));
        i = i + 1;
    }
    assert(all.take(n as int) =~= all);
    Some(NoTransformation { id: String::from_str(atom_name_template), description: String::new(), at_rule_identifier: None, rules })
}


/// A property of a token loop's block, with the group's key and value
/// references turned into placeholders.
pub open spec fn token_property(p: Seq<char>, name: Seq<char>) -> Seq<char> {
    replace_all(replace_all(p, "$"@ + name + ".key"@, "{{ KEY }}"@), "$"@ + name + ".value"@, "{{ VAL }}"@)
}

/// A value of a token loop's block: `$$group.value` becomes a reference to the
/// token's root variable, then the key and value references become
/// placeholders.
pub open spec fn token_value(v: Seq<char>, name: Seq<char>, prefix: Seq<char>) -> Seq<char> {
    replace_all(
        replace_all(
            replace_all(v, "$$"@ + name + ".value"@, "var(--"@ + prefix + "{{ KEY }})"@),
            "$"@ + name + ".key"@,
            "{{ KEY }}"@,
        ),
        "$"@ + name + ".value"@,
        "{{ VAL }}"@,
    )
}

/// The declarations of a token loop's block, kept in the order of the block;
/// where two properties come out the same, the later value takes the place of
/// the first.
pub open spec fn token_block(
    block: Seq<(Seq<char>, Seq<char>)>,
    name: Seq<char>,
    prefix: Seq<char>,
) -> Seq<(Seq<char>, Seq<char>)>
    decreases block.len(),
{
    if block.len() == 0 {
        Seq::empty()
    } else {
        let (p, v) = block.last();
        index_insert(token_block(block.drop_last(), name, prefix), token_property(p, name), token_value(v, name, prefix))
    }
}

/// An atom name with its loop over the token group `name` turned into
/// placeholders.
pub open spec fn token_atom_name_with(atom: Seq<char>, name: Seq<char>) -> Seq<char> {
    replace_all(replace_all(atom, "[$"@ + name + ".key]"@, "{{ KEY }}"@), "[$"@ + name + ".value]"@, "{{ VAL }}"@)
}

/// What a loop over the token group `group` makes: one rule with
/// placeholders, to be repeated for every token; nothing where there is no
/// loop (`None`).
pub open spec fn token_loop_with(
    atom: Seq<char>,
    group: Option<Seq<char>>,
    block: Seq<(Seq<char>, Seq<char>)>,
    o: OptionsModel,
) -> Option<TransformationModel> {
    match group {
        None => None,
        Some(name) => {
            let atom_name = token_atom_name_with(atom, name);
            Some(
                TransformationModel::Many {
                    id: atom_name,
                    description: Seq::empty(),
                    group: name,
                    rules: seq![
                        RuleModel {
                            selector: selector_for(atom_name, o),
                            declarations: token_block(block, name, o.root_variable_prefix),
                        },
                    ],
                },
            )
        },
    }
}

/// What a loop over a token group makes: one rule with placeholders, to be
/// repeated for every token; nothing where the atom name has no loop.
pub open spec fn token_loop(atom: Seq<char>, block: Seq<(Seq<char>, Seq<char>)>, o: OptionsModel) -> Option<TransformationModel> {
    token_loop_with(atom, atom_matches(atom).token_loop, block, o)
}

/// Expands a loop over a token group into a rule with placeholders.
pub fn detect_token_loop(
    atom_name_template: &str,
    block: &SugarBlock,
    options: &Options,
    pattern: &Pattern,
) -> (r: Option<ManyRulesFromTokenGroup>)
    requires
        pattern.source() == token_loop_source(),
    ensures
        r is Some <==> token_loop(atom_name_template@, str_entries(*block), options@) is Some,
        r matches Some(t) ==> token_loop(atom_name_template@, str_entries(*block), options@) == Some(t.model()),
{
    let group = capture(pattern, atom_name_template, "$token_group_name");
    proof {
        reveal_strlit("$token_group_name");
    }
    expand_token_loop(atom_name_template, &group, block, options)
}

/// Expands the loop of an atom name over the token group `group` names, if it
/// names one, into a rule with placeholders.
pub fn expand_token_loop(
    atom_name_template: &str,
    group: &Option<String>,
    block: &SugarBlock,
    options: &Options,
) -> (r: Option<ManyRulesFromTokenGroup>)
    ensures
        r is Some <==> group is Some,
        r matches Some(t) ==> token_loop_with(atom_name_template@, group.deep_view(), str_entries(*block), options@) == Some(t.model()),
{
    let token_group_name = match group {
        None => return None,
        Some(name) => name.clone(),
    };
    let ghost name = token_group_name@;
    let ghost bm = str_entries(*block);
    let key_list_replacer = join3("[$", token_group_name.as_str(), ".key]");
    let value_list_replacer = join3("[$", token_group_name.as_str(), ".value]");
    let key_replacer = join3("$", token_group_name.as_str(), ".key");
    let value_replacer = join3("$", token_group_name.as_str(), ".value");
    let with_key = replace(atom_name_template, key_list_replacer.as_str(), "{{ KEY }}");
    let atom_name = replace(with_key.as_str(), value_list_replacer.as_str(), "{{ VAL }}");
    let root_variable_name = join3("var(--", options.root_variable_prefix.as_str(), "{{ KEY }})");
    let root_variable_replacer = join3("$$", token_group_name.as_str(), ".value");
    let mut declarations: Declarations = Declarations::new();
    let b = str_map_len(block);
    let mut j: usize = 0;
    assert(bm.take(0) =~= Seq::<(Seq<char>, Seq<char>)>::empty());
    while j < b
        invariant
            bm == str_entries(*block),
            b == bm.len(),
            key_replacer@ == "$"@ + name + ".key"@,
            value_replacer@ == "$"@ + name + ".value"@,
            root_variable_name@ == "var(--"@ + options@.root_variable_prefix + "{{ KEY }})"@,
            root_variable_replacer@ == "$$"@ + name + ".value"@,
            j <= b,
            declarations@ == token_block(bm.take(j as int), name, options@.root_variable_prefix),
        decreases b - j,
    {
        let (property_template, value_template) = match str_map_entry(block, j) {
            Some(e) => e,
            None => {
                assert(false);
                return None;
            },
        };
        let p1 = replace(property_template.as_str(), key_replacer.as_str(), "{{ KEY }}");
        let property = replace(p1.as_str(), value_replacer.as_str(), "{{ VAL }}");
        let v1 = replace(value_template.as_str(), root_variable_replacer.as_str(), root_variable_name.as_str());
        let v2 = replace(v1.as_str(), key_replacer.as_str(), "{{ KEY }}");
        let value = replace(v2.as_str(), value_replacer.as_str(), "{{ VAL }}");
        declarations.insert_in_order(property, value);
        assert(bm.take(j + 1).drop_last() =~= bm.take(j as int));
        assert(bm.take(j + 1).last() == bm[j as int]);
        j = j + 1;
    }
    assert(bm.take(b as int) =~= bm);
    let rule = CSSRule { selector: get_selector(atom_name.as_str(), options), declarations };
    let ghost rule_model = rule.deep_view();
    let rules = vec![rule];
    assert(rules.deep_view() =~= seq![rule_model]);
    Some(
        ManyRulesFromTokenGroup {
            id: atom_name,
            description: String::new(),
            token_group_name,
            rules,
        },
    )
}

/// The declarations of a block taken as they are, in the order of the block.
pub open spec fn plain_block(block: Seq<(Seq<char>, Seq<char>)>) -> Seq<(Seq<char>, Seq<char>)>
    decreases block.len(),
{
    if block.len() == 0 {
        Seq::empty()
    } else {
        index_insert(plain_block(block.drop_last()), block.last().0, block.last().1)
    }
}

/// What an atom without a loop makes: one rule with the block's declarations.
pub open spec fn plain_atom(atom: Seq<char>, block: Seq<(Seq<char>, Seq<char>)>, o: OptionsModel) -> TransformationModel {
    TransformationModel::Plain {
        id: atom,
        description: Seq::empty(),
        at_rule: None,
        rules: seq![RuleModel { selector: selector_for(atom, o), declarations: plain_block(block) }],
    }
}

/// The rule of an atom without a loop.
fn plain_rule(atom_name_template: &str, block: &SugarBlock, options: &Options) -> (r: NoTransformation)
    ensures
        r.model() == plain_atom(atom_name_template@, str_entries(*block), options@),
{
    let ghost bm = str_entries(*block);
    let mut declarations: Declarations = Declarations::new();
    let b = str_map_len(block);
    let mut j: usize = 0;
    assert(bm.take(0) =~= Seq::<(Seq<char>, Seq<char>)>::empty());
    while j < b
        invariant
            bm == str_entries(*block),
            b == bm.len(),
            j <= b,
            declarations@ == plain_block(bm.take(j as int)),
        decreases b - j,
    {
        match str_map_entry(block, j) {
            Some((property, value)) => {
                declarations.insert_in_order(property.clone(), value.clone());
            },
            None => {
                assert(false);
            },
        }
        assert(bm.take(j + 1).drop_last() =~= bm.take(j as int));
        assert(bm.take(j + 1).last() == bm[j as int]);
        j = j + 1;
    }
    assert(bm.take(b as int) =~= bm);
    let rule = CSSRule { selector: get_selector(atom_name_template, options), declarations };
    let ghost rule_model = rule.deep_view();
    let rules = vec![rule];
    assert(rules.deep_view() =~= seq![rule_model]);
    NoTransformation { id: String::from_str(atom_name_template), description: String::new(), at_rule_identifier: None, rules }
}


/// Where reading templates stands: the transformations so far, the atoms that
/// get breakpoint and pseudo-class copies, and, for the template being read,
/// its variable maps and its options.
pub struct TemplateState {
    pub list: Seq<TransformationModel>,
    pub breakpoint_ids: Seq<Seq<char>>,
    pub pseudo_class_ids: Seq<Seq<char>>,
    pub maps: Seq<(Seq<char>, Seq<(Seq<char>, Seq<char>)>)>,
    pub include_breakpoints: bool,
    pub include_pseudo_classes: bool,
}

/// The state after the atom `id` made `t`: `t` is listed, and the atom gets
/// the copies that the template's options ask for.
pub open spec fn note_atom(st: TemplateState, id: Seq<char>, t: TransformationModel) -> TemplateState {
    TemplateState {
        list: st.list.push(t),
        breakpoint_ids: if st.include_breakpoints {
            st.breakpoint_ids.push(id)
        } else {
            st.breakpoint_ids
        },
        pseudo_class_ids: if st.include_pseudo_classes {
            st.pseudo_class_ids.push(id)
        } else {
            st.pseudo_class_ids
        },
        maps: st.maps,
        include_breakpoints: st.include_breakpoints,
        include_pseudo_classes: st.include_pseudo_classes,
    }
}

/// The state after one atom name and its block, given what the patterns find
/// in the name: an `@options` block sets the template's options; a declared
/// name (`$name`) stores the block as a variable map; otherwise the atom is a
/// loop over a declared variable map, a loop over a token group, or a plain
/// rule, tried in that order.
pub open spec fn template_step_with(
    st: TemplateState,
    atom: Seq<char>,
    block: Seq<(Seq<char>, Seq<char>)>,
    m: AtomMatchesModel,
    o: OptionsModel,
) -> TemplateState {
    if atom == "@options"@ {
        let flags = options_after(st.include_breakpoints, st.include_pseudo_classes, block);
        TemplateState {
            list: st.list,
            breakpoint_ids: st.breakpoint_ids,
            pseudo_class_ids: st.pseudo_class_ids,
            maps: st.maps,
            include_breakpoints: flags.0,
            include_pseudo_classes: flags.1,
        }
    } else if m.declared is Some {
        TemplateState {
            list: st.list,
            breakpoint_ids: st.breakpoint_ids,
            pseudo_class_ids: st.pseudo_class_ids,
            maps: index_insert(st.maps, m.declared->0, block),
            include_breakpoints: st.include_breakpoints,
            include_pseudo_classes: st.include_pseudo_classes,
        }
    } else if variable_loop_with(atom, m.variable_loop, block, st.maps, o) is Some {
        note_atom(st, atom, variable_loop_with(atom, m.variable_loop, block, st.maps, o)->0)
    } else if m.token_loop is Some {
        note_atom(st, token_atom_name_with(atom, m.token_loop->0), token_loop_with(atom, m.token_loop, block, o)->0)
    } else {
        note_atom(st, atom, plain_atom(atom, block, o))
    }
}

/// The state after the atoms of `entries`, in order, the atom at position `k`
/// with the matches `ms[k]`.
pub open spec fn ruleset_state_with(
    st: TemplateState,
    entries: Seq<(Seq<char>, Seq<(Seq<char>, Seq<char>)>)>,
    ms: Seq<AtomMatchesModel>,
    o: OptionsModel,
) -> TemplateState
    decreases entries.len(),
{
    if entries.len() == 0 {
        st
    } else {
        template_step_with(
            ruleset_state_with(st, entries.drop_last(), ms, o),
            entries.last().0,
            entries.last().1,
            ms[entries.len() - 1],
            o,
        )
    }
}

/// An `@options` block sets each option it names to whether its value is
/// `true`, keeps the options it does not name, and lists nothing.
pub proof fn lemma_options_block_sets_flags(
    st: TemplateState,
    block: Seq<(Seq<char>, Seq<char>)>,
    m: AtomMatchesModel,
    o: OptionsModel,
)
    ensures
        ({
            let r = template_step_with(st, "@options"@, block, m, o);
            &&& r.include_breakpoints == match lookup(block, "include_breakpoints"@) {
                Some(v) => v == "true"@,
                None => st.include_breakpoints,
            }
            &&& r.include_pseudo_classes == match lookup(block, "include_pseudo_classes"@) {
                Some(v) => v == "true"@,
                None => st.include_pseudo_classes,
            }
            &&& r.list == st.list
            &&& r.breakpoint_ids == st.breakpoint_ids
            &&& r.pseudo_class_ids == st.pseudo_class_ids
        }),
{
}

/// After an `@options` block of a template sets `include_breakpoints` (or
/// `include_pseudo_classes`) to `false`, and until another `@options` block,
/// no atom of the template is listed for breakpoint (or pseudo-class) copies.
pub proof fn lemma_options_off_lists_nothing(
    st: TemplateState,
    entries: Seq<(Seq<char>, Seq<(Seq<char>, Seq<char>)>)>,
    ms: Seq<AtomMatchesModel>,
    o: OptionsModel,
    k: int,
)
    requires
        0 <= k < entries.len(),
        entries[k].0 == "@options"@,
        forall|j: int| k < j < entries.len() ==> (#[trigger] entries[j]).0 != "@options"@,
    ensures
        lookup(entries[k].1, "include_breakpoints"@) == Some("false"@) ==> {
            &&& !ruleset_state_with(st, entries, ms, o).include_breakpoints
            &&& ruleset_state_with(st, entries, ms, o).breakpoint_ids == ruleset_state_with(st, entries.take(k), ms, o).breakpoint_ids
        },
        lookup(entries[k].1, "include_pseudo_classes"@) == Some("false"@) ==> {
            &&& !ruleset_state_with(st, entries, ms, o).include_pseudo_classes
            &&& ruleset_state_with(st, entries, ms, o).pseudo_class_ids == ruleset_state_with(st, entries.take(k), ms, o).pseudo_class_ids
        },
    decreases entries.len(),
{
    reveal_strlit("true");
    reveal_strlit("false");
    let front = entries.drop_last();
    let prev = ruleset_state_with(st, front, ms, o);
    let last = entries.last();
    let r = ruleset_state_with(st, entries, ms, o);
    assert(r == template_step_with(prev, last.0, last.1, ms[entries.len() - 1], o));
    assert("false"@[0] == 'f' && "true"@[0] == 't');
    assert("false"@ != "true"@);
    if k == entries.len() - 1 {
        assert(front =~= entries.take(k));
        assert(last == entries[k]);
        lemma_options_block_sets_flags(prev, last.1, ms[entries.len() - 1], o);
    } else {
        assert(front[k] == entries[k]);
        assert forall|j: int| k < j < front.len() implies (#[trigger] front[j]).0 != "@options"@ by {
            assert(front[j] == entries[j]);
        }
        lemma_options_off_lists_nothing(st, front, ms, o, k);
        assert(front.take(k) =~= entries.take(k));
        assert(entries[entries.len() - 1].0 != "@options"@);
    }
}

/// The state at the start of a template: no variable maps, both kinds of
/// copies asked for.
pub open spec fn start_template(st: TemplateState) -> TemplateState {
    TemplateState {
        list: st.list,
        breakpoint_ids: st.breakpoint_ids,
        pseudo_class_ids: st.pseudo_class_ids,
        maps: Seq::empty(),
        include_breakpoints: true,
        include_pseudo_classes: true,
    }
}

/// The state before any template.
pub open spec fn initial_state() -> TemplateState {
    TemplateState {
        list: Seq::empty(),
        breakpoint_ids: Seq::empty(),
        pseudo_class_ids: Seq::empty(),
        maps: Seq::empty(),
        include_breakpoints: true,
        include_pseudo_classes: true,
    }
}

/// The state after the templates of `rulesets`, in order, the atom at
/// position `k` of template `i` with the matches `matches[i][k]`.
pub open spec fn templates_state_with(
    rulesets: Seq<Seq<(Seq<char>, Seq<(Seq<char>, Seq<char>)>)>>,
    matches: Seq<Seq<AtomMatchesModel>>,
    o: OptionsModel,
) -> TemplateState
    decreases rulesets.len(),
{
    if rulesets.len() == 0 {
        initial_state()
    } else {
        ruleset_state_with(
            start_template(templates_state_with(rulesets.drop_last(), matches, o)),
            rulesets.last(),
            matches[rulesets.len() - 1],
            o,
        )
    }
}

/// What the patterns find in every atom name of every template.
pub open spec fn matches_of(rulesets: Seq<Seq<(Seq<char>, Seq<(Seq<char>, Seq<char>)>)>>) -> Seq<Seq<AtomMatchesModel>> {
    Seq::new(rulesets.len(), |i: int| Seq::new(rulesets[i].len(), |k: int| atom_matches(rulesets[i][k].0)))
}

/// There are matches for every atom name of every template.
pub open spec fn matches_fit(
    rulesets: Seq<Seq<(Seq<char>, Seq<(Seq<char>, Seq<char>)>)>>,
    matches: Seq<Seq<AtomMatchesModel>>,
) -> bool {
    &&& matches.len() == rulesets.len()
    &&& forall|i: int| 0 <= i < rulesets.len() ==> #[trigger] matches[i].len() == rulesets[i].len()
}

/// The templates, each by its entries.
pub open spec fn templates_model(rulesets: Seq<CSSTemplate>) -> Seq<Seq<(Seq<char>, Seq<(Seq<char>, Seq<char>)>)>> {
    Seq::new(rulesets.len(), |i: int| block_entries(rulesets[i]))
}

/// Every `@options` block of every template sets its options to `true` or
/// `false`.
pub open spec fn options_blocks_ok(rulesets: Seq<Seq<(Seq<char>, Seq<(Seq<char>, Seq<char>)>)>>) -> bool {
    forall|i: int, j: int|
        0 <= i < rulesets.len() && 0 <= j < rulesets[i].len() ==> options_block_ok(
            #[trigger] rulesets[i][j].0,
            rulesets[i][j].1,
        )
}

/// The transformations of the templates, given what the patterns find in
/// their atom names: those of their atoms, in order, then the breakpoint
/// copies, then the pseudo-class copies.
pub open spec fn template_transforms_with(
    rulesets: Seq<Seq<(Seq<char>, Seq<(Seq<char>, Seq<char>)>)>>,
    matches: Seq<Seq<AtomMatchesModel>>,
    o: OptionsModel,
) -> Seq<TransformationModel> {
    let st = templates_state_with(rulesets, matches, o);
    st.list + breakpoint_transforms(st.breakpoint_ids, o, o.breakpoints) + pseudo_class_transforms(
        st.pseudo_class_ids,
        o,
        o.pseudo_classes,
    )
}

/// The transformations of the templates: those of their atoms, in order, then
/// the breakpoint copies, then the pseudo-class copies.
pub open spec fn template_transforms(
    rulesets: Seq<Seq<(Seq<char>, Seq<(Seq<char>, Seq<char>)>)>>,
    o: OptionsModel,
) -> Seq<TransformationModel> {
    template_transforms_with(rulesets, matches_of(rulesets), o)
}

/// A transformation that an atom makes: its rules as they are, outside any
/// at-rule, or a loop over a token group.
pub open spec fn atom_transform(t: TransformationModel) -> bool {
    match t {
        TransformationModel::Plain { at_rule, .. } => at_rule is None,
        TransformationModel::Many { .. } => true,
        _ => false,
    }
}

/// Some transformation of `list` has the id `id`.
pub open spec fn listed(list: Seq<TransformationModel>, id: Seq<char>) -> bool {
    exists|i: int| 0 <= i < list.len() && id_of(#[trigger] list[i]) == id
}

/// Every transformation listed so far is one that an atom makes, and every
/// atom that gets breakpoint or pseudo-class copies is the id of one of them.
pub open spec fn state_ok(st: TemplateState) -> bool {
    &&& forall|i: int| 0 <= i < st.list.len() ==> atom_transform(#[trigger] st.list[i])
    &&& forall|k: int| 0 <= k < st.breakpoint_ids.len() ==> listed(st.list, #[trigger] st.breakpoint_ids[k])
    &&& forall|k: int| 0 <= k < st.pseudo_class_ids.len() ==> listed(st.list, #[trigger] st.pseudo_class_ids[k])
}

proof fn lemma_listed_push(list: Seq<TransformationModel>, t: TransformationModel, id: Seq<char>)
    requires
        listed(list, id) || id_of(t) == id,
    ensures
        listed(list.push(t), id),
{
    let l = list.push(t);
    if listed(list, id) {
        let i = choose|i: int| 0 <= i < list.len() && id_of(#[trigger] list[i]) == id;
        assert(l[i] == list[i]);
    } else {
        assert(l[list.len() as int] == t);
    }
}

proof fn lemma_note_atom_ok(st: TemplateState, id: Seq<char>, t: TransformationModel)
    requires
        state_ok(st),
        atom_transform(t),
        id_of(t) == id,
    ensures
        state_ok(note_atom(st, id, t)),
{
    let r = note_atom(st, id, t);
    let n = st.list.len();
    assert(r.list[n as int] == t);
    assert forall|i: int| 0 <= i < r.list.len() implies atom_transform(#[trigger] r.list[i]) by {
        if i < n {
            assert(r.list[i] == st.list[i]);
        }
    }
    assert forall|k: int| 0 <= k < r.breakpoint_ids.len() implies listed(r.list, #[trigger] r.breakpoint_ids[k]) by {
        if k < st.breakpoint_ids.len() {
            assert(r.breakpoint_ids[k] == st.breakpoint_ids[k]);
        } else {
            assert(r.breakpoint_ids[k] == id);
        }
        lemma_listed_push(st.list, t, r.breakpoint_ids[k]);
    }
    assert forall|k: int| 0 <= k < r.pseudo_class_ids.len() implies listed(r.list, #[trigger] r.pseudo_class_ids[k]) by {
        if k < st.pseudo_class_ids.len() {
            assert(r.pseudo_class_ids[k] == st.pseudo_class_ids[k]);
        } else {
            assert(r.pseudo_class_ids[k] == id);
        }
        lemma_listed_push(st.list, t, r.pseudo_class_ids[k]);
    }
}

proof fn lemma_ruleset_state_ok(
    st: TemplateState,
    entries: Seq<(Seq<char>, Seq<(Seq<char>, Seq<char>)>)>,
    ms: Seq<AtomMatchesModel>,
    o: OptionsModel,
)
    requires
        state_ok(st),
    ensures
        state_ok(ruleset_state_with(st, entries, ms, o)),
    decreases entries.len(),
{
    if entries.len() > 0 {
        lemma_ruleset_state_ok(st, entries.drop_last(), ms, o);
        let prev = ruleset_state_with(st, entries.drop_last(), ms, o);
        let atom = entries.last().0;
        let block = entries.last().1;
        let m = ms[entries.len() - 1];
        if atom == "@options"@ || m.declared is Some {
        } else if variable_loop_with(atom, m.variable_loop, block, prev.maps, o) is Some {
            lemma_note_atom_ok(prev, atom, variable_loop_with(atom, m.variable_loop, block, prev.maps, o)->0);
        } else if m.token_loop is Some {
            lemma_note_atom_ok(prev, token_atom_name_with(atom, m.token_loop->0), token_loop_with(atom, m.token_loop, block, o)->0);
        } else {
            lemma_note_atom_ok(prev, atom, plain_atom(atom, block, o));
        }
    }
}

proof fn lemma_templates_state_ok(
    rulesets: Seq<Seq<(Seq<char>, Seq<(Seq<char>, Seq<char>)>)>>,
    matches: Seq<Seq<AtomMatchesModel>>,
    o: OptionsModel,
)
    ensures
        state_ok(templates_state_with(rulesets, matches, o)),
    decreases rulesets.len(),
{
    if rulesets.len() > 0 {
        lemma_templates_state_ok(rulesets.drop_last(), matches, o);
        let start = start_template(templates_state_with(rulesets.drop_last(), matches, o));
        lemma_ruleset_state_ok(start, rulesets.last(), matches[rulesets.len() - 1], o);
    }
}

/// The transformations of the templates are, in order: one per atom that is
/// neither an `@options` block nor a variable map declaration, each the atom's
/// rules as they are (outside any at-rule) or a loop over a token group; then
/// the copies that the breakpoints make of the atoms listed for them; then
/// the copies that the pseudo-classes make of the atoms listed for those.
/// Every atom listed for copies is the id of one of the first part.
pub proof fn lemma_template_transforms_parts(
    rulesets: Seq<Seq<(Seq<char>, Seq<(Seq<char>, Seq<char>)>)>>,
    o: OptionsModel,
)
    ensures
        ({
            let st = templates_state_with(rulesets, matches_of(rulesets), o);
            &&& template_transforms(rulesets, o) == st.list + breakpoint_transforms(st.breakpoint_ids, o, o.breakpoints)
                + pseudo_class_transforms(st.pseudo_class_ids, o, o.pseudo_classes)
            &&& state_ok(st)
        }),
{
    lemma_templates_state_ok(rulesets, matches_of(rulesets), o);
}

/// Whether every `@options` block of every template sets its options to
/// `true` or `false`.
pub fn template_options_are_valid(rulesets: &Vec<CSSTemplate>) -> (r: bool)
    ensures
        r == options_blocks_ok(templates_model(rulesets@)),
{
    let ghost rs = templates_model(rulesets@);
    let mut i: usize = 0;
    while i < rulesets.len()
        invariant
            rs == templates_model(rulesets@),
            i <= rs.len(),
            forall|a: int, c: int| 0 <= a < i && 0 <= c < rs[a].len() ==> options_block_ok(#[trigger] rs[a][c].0, rs[a][c].1),
        decreases rulesets.len() - i,
    {
        let ruleset = &rulesets[i];
        let n = block_map_len(ruleset);
        let mut j: usize = 0;
        while j < n
            invariant
                rs == templates_model(rulesets@),
                i < rs.len(),
                *ruleset == rulesets@[i as int],
                n == rs[i as int].len(),
                j <= n,
                forall|a: int, c: int| 0 <= a < i && 0 <= c < rs[a].len() ==> options_block_ok(#[trigger] rs[a][c].0, rs[a][c].1),
                forall|c: int| 0 <= c < j ==> options_block_ok(#[trigger] rs[i as int][c].0, rs[i as int][c].1),
            decreases n - j,
        {
            match block_map_entry(ruleset, j) {
                None => {
                    assert(false);
                },
                Some((name, block)) => {
                    if same_text(name.as_str(), "@options") {
                        proof {
                            lemma_lookup_none(str_entries(*block), "include_breakpoints"@);
                            lemma_lookup_none(str_entries(*block), "include_pseudo_classes"@);
                        }
                        match str_map_get(block, "include_breakpoints") {
                            Some(v) => {
                                if parse_bool(v.as_str()).is_none() {
                                    assert(!options_block_ok(rs[i as int][j as int].0, rs[i as int][j as int].1));
                                    return false;
                                }
                            },
                            None => {},
                        }
                        match str_map_get(block, "include_pseudo_classes") {
                            Some(v) => {
                                if parse_bool(v.as_str()).is_none() {
                                    assert(!options_block_ok(rs[i as int][j as int].0, rs[i as int][j as int].1));
                                    return false;
                                }
                            },
                            None => {},
                        }
                    }
                },
            }
            j = j + 1;
        }
        i = i + 1;
    }
    true
}

/// What the exec state of reading templates stands for.
pub open spec fn state_of(
    list: Seq<TransformationModel>,
    breakpoint_ids: Seq<Seq<char>>,
    pseudo_class_ids: Seq<Seq<char>>,
    maps: IndexMap<String, IndexMap<String, String>>,
    template_options: TemplateOptions,
) -> TemplateState {
    TemplateState {
        list,
        breakpoint_ids,
        pseudo_class_ids,
        maps: block_entries(maps),
        include_breakpoints: template_options.include_breakpoints,
        include_pseudo_classes: template_options.include_pseudo_classes,
    }
}

/// Lists `t`, made by the atom `id`, and asks for its copies as the template
/// options say.
fn note(
    list: &mut Vec<Transformation>,
    breakpoint_ids: &mut Vec<String>,
    pseudo_class_ids: &mut Vec<String>,
    template_options: &TemplateOptions,
    id: &String,
    t: Transformation,
)
    ensures
        final(list).deep_view() == old(list).deep_view().push(t.deep_view()),
        final(breakpoint_ids).deep_view() == if template_options.include_breakpoints {
            old(breakpoint_ids).deep_view().push(id@)
        } else {
            old(breakpoint_ids).deep_view()
        },
        final(pseudo_class_ids).deep_view() == if template_options.include_pseudo_classes {
            old(pseudo_class_ids).deep_view().push(id@)
        } else {
            old(pseudo_class_ids).deep_view()
        },
{
    if template_options.include_breakpoints {
        let ghost prior = *breakpoint_ids;
        let s = id.clone();
        breakpoint_ids.push(s);
        proof {
            lemma_push_deep_view(prior, *breakpoint_ids, s);
        }
    }
    if template_options.include_pseudo_classes {
        let ghost prior = *pseudo_class_ids;
        let s = id.clone();
        pseudo_class_ids.push(s);
        proof {
            lemma_push_deep_view(prior, *pseudo_class_ids, s);
        }
    }
    let ghost prior = *list;
    list.push(t);
    proof {
        lemma_push_deep_view(prior, *list, t);
    }
}

/// The transformations of the templates: for each atom of each template, in
/// order, a transformation (a loop over a variable map declared in the
/// template, a loop over a token group, or the atom's rule as it is); then the
/// copies of the atoms that breakpoints and pseudo-classes make.
pub fn transformations_from_templates(
    rulesets: &Vec<CSSTemplate>,
    options: &Options,
    patterns: &TemplatePatterns,
) -> (r: Transformations)
    requires
        patterns.wf(),
        options_blocks_ok(templates_model(rulesets@)),
    ensures
        r.deep_view() == template_transforms(templates_model(rulesets@), options@),
{
    let ghost rs = templates_model(rulesets@);
    let mut matches: Vec<Vec<AtomMatches>> = Vec::new();
    let mut i: usize = 0;
    while i < rulesets.len()
        invariant
            rs == templates_model(rulesets@),
            patterns.wf(),
            i <= rs.len(),
            matches@.len() == i,
            forall|a: int| 0 <= a < i ==> #[trigger] matches@[a].deep_view() == matches_of(rs)[a],
        decreases rulesets.len() - i,
    {
        let ruleset = &rulesets[i];
        let n = block_map_len(ruleset);
        let mut found: Vec<AtomMatches> = Vec::new();
        let mut j: usize = 0;
        while j < n
            invariant
                rs == templates_model(rulesets@),
                patterns.wf(),
                i < rs.len(),
                *ruleset == rulesets@[i as int],
                n == rs[i as int].len(),
                j <= n,
                found@.len() == j,
                forall|k: int| 0 <= k < j ==> #[trigger] found@[k].deep_view() == atom_matches(rs[i as int][k].0),
            decreases n - j,
        {
            match block_map_entry(ruleset, j) {
                Some((name, _)) => {
                    let m = match_atom(name.as_str(), patterns);
                    found.push(m);
                },
                None => {
                    assert(false);
                    return Vec::new();
                },
            }
            j = j + 1;
        }
        assert(found.deep_view() =~= matches_of(rs)[i as int]);
        let ghost prior = matches@;
        matches.push(found);
        assert forall|a: int| 0 <= a < i + 1 implies #[trigger] matches@[a].deep_view() == matches_of(rs)[a] by {
            if a < i {
                assert(matches@[a] == prior[a]);
            }
        }
        i = i + 1;
    }
    assert(matches.deep_view() =~= matches_of(rs));
    transformations_from_matches(rulesets, options, &matches)
}

/// The transformations of the templates, given what the patterns find in each
/// atom name (`matches[i][k]` for the atom at position `k` of template `i`):
/// for each atom of each template, in order, a transformation; then the
/// copies of the atoms that breakpoints and pseudo-classes make.
pub fn transformations_from_matches(
    rulesets: &Vec<CSSTemplate>,
    options: &Options,
    matches: &Vec<Vec<AtomMatches>>,
) -> (r: Transformations)
    requires
        options_blocks_ok(templates_model(rulesets@)),
        matches_fit(templates_model(rulesets@), matches.deep_view()),
    ensures
        r.deep_view() == template_transforms_with(templates_model(rulesets@), matches.deep_view(), options@),
{
    let ghost rs = templates_model(rulesets@);
    let ghost ms = matches.deep_view();
    let ghost o = options@;
    let mut list: Vec<Transformation> = Vec::new();
    let mut ids_affected_by_breakpoints: Vec<String> = Vec::new();
    let mut ids_affected_by_pseudo_classes: Vec<String> = Vec::new();
    let mut i: usize = 0;
    assert(rs.take(0) =~= Seq::<Seq<(Seq<char>, Seq<(Seq<char>, Seq<char>)>)>>::empty());
    assert(list.deep_view() =~= Seq::<TransformationModel>::empty());
    assert(ids_affected_by_breakpoints.deep_view() =~= Seq::<Seq<char>>::empty());
    assert(ids_affected_by_pseudo_classes.deep_view() =~= Seq::<Seq<char>>::empty());
    while i < rulesets.len()
        invariant
            rs == templates_model(rulesets@),
            ms == matches.deep_view(),
            o == options@,
            options_blocks_ok(rs),
            matches_fit(rs, ms),
            i <= rs.len(),
            ({
                let st = templates_state_with(rs.take(i as int), ms, o);
                &&& list.deep_view() == st.list
                &&& ids_affected_by_breakpoints.deep_view() == st.breakpoint_ids
                &&& ids_affected_by_pseudo_classes.deep_view() == st.pseudo_class_ids
            }),
        decreases rulesets.len() - i,
    {
        let ruleset = &rulesets[i];
        let found = &matches[i];
        let ghost entries = rs[i as int];
        let ghost ems = ms[i as int];
        let ghost start = start_template(templates_state_with(rs.take(i as int), ms, o));
        let mut variable_maps: IndexMap<String, IndexMap<String, String>> = new_block_map();
        let mut template_options = TemplateOptions::default();
        let n = block_map_len(ruleset);
        let mut j: usize = 0;
        assert(entries.take(0) =~= Seq::<(Seq<char>, Seq<(Seq<char>, Seq<char>)>)>::empty());
        while j < n
            invariant
                rs == templates_model(rulesets@),
                ms == matches.deep_view(),
                o == options@,
                options_blocks_ok(rs),
                matches_fit(rs, ms),
                i < rs.len(),
                entries == rs[i as int],
                ems == ms[i as int],
                ems == found.deep_view(),
                ems.len() == n,
                *ruleset == rulesets@[i as int],
                n == entries.len(),
                j <= n,
                state_of(
                    list.deep_view(),
                    ids_affected_by_breakpoints.deep_view(),
                    ids_affected_by_pseudo_classes.deep_view(),
                    variable_maps,
                    template_options,
                ) == ruleset_state_with(start, entries.take(j as int), ems, o),
            decreases n - j,
        {
            let (atom_name_template, block) = match block_map_entry(ruleset, j) {
                Some(e) => e,
                None => {
                    assert(false);
                    return Vec::new();
                },
            };
            assert(entries.take(j + 1).drop_last() =~= entries.take(j as int));
            assert(entries.take(j + 1).last() == entries[j as int]);
            assert(options_block_ok(rs[i as int][j as int].0, rs[i as int][j as int].1));
            let m = &found[j];
            assert(m.deep_view() == ems[j as int]);
            if detect_template_options(atom_name_template.as_str(), block, &mut template_options) {
            } else if declare_variable_map(&m.declared, block, &mut variable_maps) {
            } else {
                match expand_variable_map_loop(
                    atom_name_template.as_str(),
                    &m.variable_loop,
                    block,
                    &variable_maps,
                    options,
                ) {
                    Some(config) => {
                        let id = config.id.clone();
                        note(
                            &mut list,
                            &mut ids_affected_by_breakpoints,
                            &mut ids_affected_by_pseudo_classes,
                            &template_options,
                            &id,
                            Transformation::NoTransformation(config),
                        );
                    },
                    None => {
                        match expand_token_loop(atom_name_template.as_str(), &m.token_loop, block, options) {
                            Some(config) => {
                                let id = config.id.clone();
                                note(
                                    &mut list,
                                    &mut ids_affected_by_breakpoints,
                                    &mut ids_affected_by_pseudo_classes,
                                    &template_options,
                                    &id,
                                    Transformation::ManyRulesFromTokenGroup(config),
                                );
                            },
                            None => {
                                let config = plain_rule(atom_name_template.as_str(), block, options);
                                let id = config.id.clone();
                                note(
                                    &mut list,
                                    &mut ids_affected_by_breakpoints,
                                    &mut ids_affected_by_pseudo_classes,
                                    &template_options,
                                    &id,
                                    Transformation::NoTransformation(config),
                                );
                            },
                        }
                    },
                }
            }
            j = j + 1;
        }
        assert(entries.take(n as int) =~= entries);
        assert(rs.take(i + 1).drop_last() =~= rs.take(i as int));
        i = i + 1;
    }
    assert(rs.take(rs.len() as int) =~= rs);
    let mut breakpoint_transforms = get_breakpoints(ids_affected_by_breakpoints, options);
    let mut pseudo_class_transforms = get_pseudo_class_transforms(ids_affected_by_pseudo_classes, options);
    let ghost front = list.deep_view();
    let ghost middle = breakpoint_transforms.deep_view();
    let ghost back = pseudo_class_transforms.deep_view();
    let ghost l0 = list@;
    let ghost b0 = breakpoint_transforms@;
    list.append(&mut breakpoint_transforms);
    assert forall|k: int| 0 <= k < list@.len() implies #[trigger] list@[k] == (if k < l0.len() { l0[k] } else { b0[k - l0.len()] }) by {}
    assert(list.deep_view() =~= front + middle);
    let ghost l1 = list@;
    let ghost p0 = pseudo_class_transforms@;
    list.append(&mut pseudo_class_transforms);
    assert forall|k: int| 0 <= k < list@.len() implies #[trigger] list@[k] == (if k < l1.len() { l1[k] } else { p0[k - l1.len()] }) by {}
    assert(list.deep_view() =~= front + middle + back);
    list
}

} // verus!
