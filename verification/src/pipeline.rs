//! The computing part of the command line tool: token groups read from
//! several files are merged, and the root variables and the atoms are built
//! into CSS.

use vstd::prelude::*;
use crate::strmap::insert_sorted;
use crate::template::{
    CSSTemplate, Options, TemplatePatterns, options_blocks_ok, root_variable_transforms, template_transforms,
    templates_model, transformations_from_templates, transformations_from_tokens,
};
use crate::transformation::{
    GroupsModel, Intermediate, TokenGroups, build_error, build_model, buildable,
    intermediate_text,
};

verus! {

/// `all` with every group of `groups` stored in it, in order; a group replaces
/// one of the same name.
pub open spec fn merged(all: GroupsModel, groups: GroupsModel) -> GroupsModel
    decreases groups.len(),
{
    if groups.len() == 0 {
        all
    } else {
        insert_sorted(merged(all, groups.drop_last()), groups.last().0, groups.last().1)
    }
}

/// Stores every group of `groups` in `all`, replacing groups of the same name.
pub fn merge_token_groups(all: &mut TokenGroups, groups: &TokenGroups)
    ensures
        final(all)@ == merged(old(all)@, groups@),
{
    let ghost g = groups@;
    let n = groups.len();
    let mut i: usize = 0;
    assert(g.take(0) =~= Seq::<(Seq<char>, Seq<(Seq<char>, Seq<char>)>)>::empty());
    while i < n
        invariant
            g == groups@,
            n == g.len(),
            i <= n,
            all@ == merged(old(all)@, g.take(i as int)),
        decreases n - i,
    {
        all.insert(groups.key_at(i).clone(), groups.value_at(i).duplicate());
        assert(g.take(i + 1).drop_last() =~= g.take(i as int));
        i = i + 1;
    }
    assert(g.take(n as int) =~= g);
}

/// The outputs of the tool: the CSS of the root variables, and the atoms, as
/// CSS and as built.
pub struct Stylesheets {
    pub variables_css: String,
    pub atoms_css: String,
    pub atoms: Intermediate,
}

/// Builds the root variables of the token groups and the atoms of the
/// templates, and writes both out as CSS; or gives the message of the first
/// transformation that cannot apply.
pub fn distill(
    token_groups: &TokenGroups,
    rulesets: &Vec<CSSTemplate>,
    options: &Options,
    patterns: &TemplatePatterns,
) -> (r: Result<Stylesheets, String>)
    requires
        patterns.wf(),
        options_blocks_ok(templates_model(rulesets@)),
    ensures
        ({
            let roots = root_variable_transforms(token_groups@, options@.root_variable_prefix);
            let atoms = template_transforms(templates_model(rulesets@), options@);
            &&& r is Ok <==> (buildable(token_groups@, roots) && buildable(token_groups@, atoms))
            &&& r matches Ok(s) ==> {
                &&& s.variables_css@ == intermediate_text(build_model(token_groups@, roots))
                &&& s.atoms@ == build_model(token_groups@, atoms)
                &&& s.atoms_css@ == intermediate_text(s.atoms@)
            }
            &&& r matches Err(msg) ==> msg@ == if !buildable(token_groups@, roots) {
                build_error(token_groups@, roots)
            } else {
                build_error(token_groups@, atoms)
            }
        }),
{
    let root_transformations = transformations_from_tokens(token_groups, options);
    let root_intermediate = match Intermediate::try_build(token_groups, &root_transformations) {
        Ok(i) => i,
        Err(msg) => return Err(msg),
    };
    let variables_css = root_intermediate.stringify();
    let transformations = transformations_from_templates(rulesets, options, patterns);
    let atoms = match Intermediate::try_build(token_groups, &transformations) {
        Ok(i) => i,
        Err(msg) => return Err(msg),
    };
    let atoms_css = atoms.stringify();
    Ok(Stylesheets { variables_css, atoms_css, atoms })
}

} // verus!
