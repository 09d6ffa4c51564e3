use indexmap::IndexMap;
use moonshine::strmap::StrMap;
use moonshine::template::{
    build_media_query, declare_variable_map, detect_token_loop, detect_variable_map_declaration,
    expand_token_loop, expand_variable_map_loop, get_selector, match_atom, template_options_are_valid,
    transformations_from_matches, transformations_from_templates, transformations_from_tokens, AtomMatches,
    AtomStyle, Breakpoint, BreakpointModifierStyle, CSSTemplate, Options, TemplatePatterns, TemplateOptions,
};
use moonshine::transformation::{Intermediate, TokenGroups, Transformation};

fn block(pairs: &[(&str, &str)]) -> IndexMap<String, String> {
    let mut m = IndexMap::new();
    for (k, v) in pairs {
        m.insert(k.to_string(), v.to_string());
    }
    m
}

fn tokens() -> TokenGroups {
    let mut colors = StrMap::new();
    colors.insert("red".to_string(), "#f00".to_string());
    colors.insert("blue".to_string(), "#00f".to_string());
    let mut groups = StrMap::new();
    groups.insert("colors".to_string(), colors);
    groups
}

fn options() -> Options {
    let mut o = Options::default();
    o.pseudo_classes.insert("hover".to_string(), "hover".to_string());
    o.breakpoints.insert(
        "md".to_string(),
        Breakpoint { min_width: Some("768px".to_string()), max_width: None },
    );
    o.breakpoints.insert("none".to_string(), Breakpoint { min_width: None, max_width: None });
    o
}

#[test]
fn default_options() {
    let o = Options::default();
    assert_eq!(o.non_atom_identifier, "__non_atom__");
    assert!(o.atom_style == AtomStyle::ClassAttribute);
    assert!(o.breakpoint_modifier_style == BreakpointModifierStyle::Prefix);
    assert_eq!(o.breakpoint_modifier_seperator, "\\:");
    assert_eq!(o.root_variable_prefix, "_");
    assert!(o.pseudo_classes.is_empty() && o.breakpoints.is_empty());
    let t = TemplateOptions::default();
    assert!(t.include_breakpoints && t.include_pseudo_classes);
}

#[test]
fn selectors_for_atoms() {
    let mut o = Options::default();
    assert_eq!(get_selector(" bg-red ", &o), ".bg-red");
    assert_eq!(get_selector("body __non_atom__", &o), "body");
    o.atom_style = AtomStyle::DataAttribute;
    assert_eq!(get_selector("bg-red", &o), "[bg-red='']");
}

#[test]
fn media_queries() {
    let q = |min: Option<&str>, max: Option<&str>| {
        build_media_query(&Breakpoint { min_width: min.map(|s| s.to_string()), max_width: max.map(|s| s.to_string()) })
    };
    assert_eq!(q(None, None), None);
    assert_eq!(q(Some("1px"), None), Some("@media (min-width: 1px)".to_string()));
    assert_eq!(q(None, Some("2px")), Some("@media (max-width: 2px)".to_string()));
    assert_eq!(q(Some("1px"), Some("2px")), Some("@media (min-width: 1px) and (max-width: 2px)".to_string()));
}

#[test]
fn root_variables_for_every_group() {
    let ts = transformations_from_tokens(&tokens(), &Options::default());
    assert_eq!(ts.len(), 1);
    match &ts[0] {
        Transformation::SingleRuleFromTokenGroup(t) => {
            assert_eq!(t.id, "root-variables-colors");
            assert_eq!(t.selector, ":root");
            assert_eq!(t.token_group_name, "colors");
        }
        _ => panic!("expected a single rule"),
    }
    let css = Intermediate::build(tokens(), ts).stringify();
    assert_eq!(css, ":root{--_blue:#00f;--_red:#f00;}\n");
}

#[test]
fn patterns_read_declarations_and_token_loops() {
    let p = TemplatePatterns::compile().unwrap();
    let mut maps = IndexMap::new();
    assert!(detect_variable_map_declaration("$sizes", &block(&[("sm", "1px")]), &mut maps, &p.declaration));
    assert_eq!(maps.len(), 1);
    assert!(maps.contains_key("sizes"));
    assert!(!detect_variable_map_declaration("$two words", &block(&[]), &mut maps, &p.declaration));
    assert!(!detect_variable_map_declaration("plain", &block(&[]), &mut maps, &p.declaration));
    let t = detect_token_loop("text-[$colors.key]", &block(&[("color", "$colors.value")]), &Options::default(), &p.token_loop)
        .unwrap();
    assert_eq!(t.id, "text-{{ KEY }}");
    assert_eq!(t.token_group_name, "colors");
    assert_eq!(t.rules[0].selector, ".text-{{ KEY }}");
    assert_eq!(t.rules[0].declarations.get("color"), Some(&"{{ VAL }}".to_string()));
    assert!(detect_token_loop("plain", &block(&[]), &Options::default(), &p.token_loop).is_none());
}

fn ruleset() -> CSSTemplate {
    let mut r: CSSTemplate = IndexMap::new();
    r.insert("$sizes".to_string(), block(&[("sm", "1px"), ("lg", "2px")]));
    r.insert("w-[$sizes.key]".to_string(), block(&[("width", "$sizes.value")]));
    r.insert("bg-[$colors.key]".to_string(), block(&[("background-color", "$$colors.value")]));
    r.insert("flex".to_string(), block(&[("display", "flex")]));
    r.insert("@options".to_string(), block(&[("include_pseudo_classes", "false")]));
    r.insert("block".to_string(), block(&[("display", "block")]));
    r
}

#[test]
fn templates_expand_into_css() {
    let p = TemplatePatterns::compile().unwrap();
    let rulesets = vec![ruleset()];
    assert!(template_options_are_valid(&rulesets));
    let ts = transformations_from_templates(&rulesets, &options(), &p);
    assert_eq!(ts.len(), 6);
    let css = Intermediate::build(tokens(), ts).stringify();
    let expected = String::new()
        + ".bg-blue{background-color:var(--_blue);}\n.bg-red{background-color:var(--_red);}\n"
        + ".block{display:block;}\n"
        + ".flex{display:flex;}\n"
        + ".hover\\:w-sm:hover{width:1px;}\n.hover\\:w-lg:hover{width:2px;}\n"
        + ".hover\\:bg-blue:hover{background-color:var(--_blue);}\n.hover\\:bg-red:hover{background-color:var(--_red);}\n"
        + ".hover\\:flex:hover{display:flex;}\n"
        + ".w-sm{width:1px;}\n.w-lg{width:2px;}\n"
        + "@media (min-width: 768px) {\n"
        + ".md\\:w-sm{width:1px;}\n.md\\:w-lg{width:2px;}\n"
        + ".md\\:bg-blue{background-color:var(--_blue);}\n.md\\:bg-red{background-color:var(--_red);}\n"
        + ".md\\:flex{display:flex;}\n.md\\:block{display:block;}\n}";
    assert_eq!(css, expected);
}

#[test]
fn options_blocks_must_hold_booleans() {
    let mut r: CSSTemplate = IndexMap::new();
    r.insert("@options".to_string(), block(&[("include_breakpoints", "yes")]));
    assert!(!template_options_are_valid(&vec![r]));
    let mut r: CSSTemplate = IndexMap::new();
    r.insert("@options".to_string(), block(&[("include_breakpoints", "false"), ("other", "x")]));
    assert!(template_options_are_valid(&vec![r]));
}

#[test]
fn suffix_modifiers_and_data_attributes() {
    let p = TemplatePatterns::compile().unwrap();
    let mut o = options();
    o.breakpoint_modifier_style = BreakpointModifierStyle::Suffix;
    o.breakpoint_modifier_seperator = "--".to_string();
    let mut r: CSSTemplate = IndexMap::new();
    r.insert("flex".to_string(), block(&[("display", "flex")]));
    let ts = transformations_from_templates(&vec![r], &o, &p);
    assert_eq!(ts.len(), 3);
    match &ts[1] {
        Transformation::CopyExistingRules(c) => {
            assert_eq!(c.id, "breakpoint-md");
            assert_eq!(c.new_selector, ".{{ PREV_SELECTOR_CLASS_NAME }}--md");
            assert_eq!(c.at_rule_identifier, Some("@media (min-width: 768px)".to_string()));
            assert_eq!(c.affected_ids, vec!["flex".to_string()]);
        }
        _ => panic!("expected a breakpoint copy"),
    }
    match &ts[2] {
        Transformation::CopyExistingRules(c) => {
            assert_eq!(c.id, "pseudo-class-hover");
            assert_eq!(c.new_selector, ".{{ PREV_SELECTOR_CLASS_NAME }}:hover--hover");
        }
        _ => panic!("expected a pseudo-class copy"),
    }
}

#[test]
fn template_declarations_keep_their_order() {
    let p = TemplatePatterns::compile().unwrap();
    let mut r: CSSTemplate = IndexMap::new();
    r.insert("box".to_string(), block(&[("padding-left", "0"), ("padding", "1rem")]));
    r.insert("$gaps".to_string(), block(&[("sm", "1px")]));
    r.insert("gap-[$gaps.key]".to_string(), block(&[("row-gap", "$gaps.value"), ("column-gap", "$gaps.value")]));
    r.insert("fg-[$colors.key]".to_string(), block(&[("color", "$$colors.value"), ("border-color", "$$colors.value")]));
    let ts = transformations_from_templates(&vec![r], &Options::default(), &p);
    assert_eq!(ts.len(), 3);
    match &ts[2] {
        Transformation::ManyRulesFromTokenGroup(t) => {
            assert_eq!(t.rules[0].declarations.key_at(0), "color");
            assert_eq!(t.rules[0].declarations.key_at(1), "border-color");
        }
        _ => panic!("expected a token loop"),
    }
    let css = Intermediate::build(tokens(), ts).stringify();
    let expected = String::new()
        + ".box{padding-left:0;padding:1rem;}\n"
        + ".fg-blue{border-color:var(--_blue);color:var(--_blue);}\n"
        + ".fg-red{border-color:var(--_red);color:var(--_red);}\n"
        + ".gap-sm{row-gap:1px;column-gap:1px;}\n";
    assert_eq!(css, expected);
}

#[test]
fn patterns_find_declared_and_looped_names() {
    let p = TemplatePatterns::compile().unwrap();
    let m = match_atom("$sizes", &p);
    assert_eq!(m.declared, Some("sizes".to_string()));
    assert_eq!(m.variable_loop, None);
    assert_eq!(m.token_loop, None);
    let m = match_atom("w-[$sizes.key]", &p);
    assert_eq!(m.declared, None);
    assert_eq!(m.variable_loop, Some("sizes".to_string()));
    assert_eq!(m.token_loop, Some("sizes".to_string()));
    let m = match_atom("flex", &p);
    assert!(m.declared.is_none() && m.variable_loop.is_none() && m.token_loop.is_none());
}

#[test]
fn declared_maps_are_stored_under_their_names() {
    let mut maps = IndexMap::new();
    assert!(declare_variable_map(&Some("gaps".to_string()), &block(&[("sm", "1px")]), &mut maps));
    assert_eq!(maps.get("gaps").unwrap().get("sm"), Some(&"1px".to_string()));
    assert!(!declare_variable_map(&None, &block(&[("lg", "2px")]), &mut maps));
    assert_eq!(maps.len(), 1);
}

#[test]
fn loops_expand_over_the_names_given() {
    let mut maps = IndexMap::new();
    maps.insert("s".to_string(), block(&[("sm", "1px"), ("lg", "2px")]));
    let b = block(&[("width", "$s.value"), ("min-width", "$s.key")]);
    let o = Options::default();
    let t = expand_variable_map_loop("w-[$s.key]", &Some("s".to_string()), &b, &maps, &o).unwrap();
    assert_eq!(t.id, "w-[$s.key]");
    assert_eq!(t.rules.len(), 2);
    assert_eq!(t.rules[0].selector, ".w-sm");
    assert_eq!(t.rules[0].declarations.key_at(0), "width");
    assert_eq!(t.rules[0].declarations.value_at(0), "1px");
    assert_eq!(t.rules[0].declarations.key_at(1), "min-width");
    assert_eq!(t.rules[0].declarations.value_at(1), "sm");
    assert_eq!(t.rules[1].selector, ".w-lg");
    assert!(expand_variable_map_loop("w-[$s.key]", &None, &b, &maps, &o).is_none());
    assert!(expand_variable_map_loop("w-[$t.key]", &Some("t".to_string()), &b, &maps, &o).is_none());
    let c = block(&[("color", "$$colors.value"), ("content", "$colors.key")]);
    let t = expand_token_loop("text-[$colors.key]", &Some("colors".to_string()), &c, &o).unwrap();
    assert_eq!(t.id, "text-{{ KEY }}");
    assert_eq!(t.token_group_name, "colors");
    assert_eq!(t.rules[0].declarations.get("color"), Some(&"var(--_{{ KEY }})".to_string()));
    assert_eq!(t.rules[0].declarations.get("content"), Some(&"{{ KEY }}".to_string()));
    assert!(expand_token_loop("text-[$colors.key]", &None, &c, &o).is_none());
}

#[test]
fn templates_follow_the_matches_given() {
    let mut r: CSSTemplate = IndexMap::new();
    r.insert("x-[$colors.key]".to_string(), block(&[("color", "$colors.value")]));
    r.insert("y".to_string(), block(&[("display", "flex")]));
    let none = || AtomMatches { declared: None, variable_loop: None, token_loop: None };
    let token = AtomMatches { declared: None, variable_loop: None, token_loop: Some("colors".to_string()) };
    let ts = transformations_from_matches(&vec![r.clone()], &Options::default(), &vec![vec![token, none()]]);
    assert_eq!(ts.len(), 2);
    match &ts[0] {
        Transformation::ManyRulesFromTokenGroup(t) => {
            assert_eq!(t.id, "x-{{ KEY }}");
            assert_eq!(t.token_group_name, "colors");
        }
        _ => panic!("expected a token loop"),
    }
    let ts = transformations_from_matches(&vec![r], &Options::default(), &vec![vec![none(), none()]]);
    match &ts[0] {
        Transformation::NoTransformation(t) => {
            assert_eq!(t.id, "x-[$colors.key]");
            assert_eq!(t.rules[0].selector, ".x-[$colors.key]");
        }
        _ => panic!("expected the rule as it is"),
    }
}
