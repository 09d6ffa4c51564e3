use moonshine::css::{CSSRule, Declarations};
use moonshine::strmap::StrMap;
use moonshine::transformation::{
    err_msg_for_missing_map, err_msg_for_missing_transformation, stringify_rules, CopyExistingRules,
    FromTokenGroup, Intermediate, ManyRulesFromTokenGroup, NoTransformation, TokenGroups, Transformation,
};

fn map(pairs: &[(&str, &str)]) -> StrMap<String> {
    let mut m = StrMap::new();
    for (k, v) in pairs {
        m.insert(k.to_string(), v.to_string());
    }
    m
}

fn decls(pairs: &[(&str, &str)]) -> Declarations {
    let mut d = Declarations::new();
    for (k, v) in pairs {
        d.insert(k.to_string(), v.to_string());
    }
    d
}

fn colors() -> TokenGroups {
    let mut groups: TokenGroups = StrMap::new();
    groups.insert("colors".to_string(), map(&[("red", "#f00"), ("blue", "#00f")]));
    groups.insert("space".to_string(), map(&[("1", "4px")]));
    groups
}

fn single(id: &str, group: &str) -> Transformation {
    Transformation::SingleRuleFromTokenGroup(FromTokenGroup {
        id: id.to_string(),
        description: "root".to_string(),
        token_group_name: group.to_string(),
        selector: ":root".to_string(),
        declarations: decls(&[("--{{ KEY }}", "{{ VAL }}")]),
    })
}

fn many(id: &str, group: &str) -> Transformation {
    Transformation::ManyRulesFromTokenGroup(ManyRulesFromTokenGroup {
        id: id.to_string(),
        description: "backgrounds".to_string(),
        token_group_name: group.to_string(),
        rules: vec![CSSRule {
            selector: ".bg-{{ KEY }}".to_string(),
            declarations: decls(&[("background-color", "{{ VAL }}")]),
        }],
    })
}

fn copy(id: &str, ids: &[&str], at: Option<&str>, selector: &str) -> Transformation {
    Transformation::CopyExistingRules(CopyExistingRules {
        id: id.to_string(),
        description: "copies".to_string(),
        affected_ids: ids.iter().map(|s| s.to_string()).collect(),
        at_rule_identifier: at.map(|s| s.to_string()),
        new_selector: selector.to_string(),
    })
}

#[test]
fn single_rule_declares_every_token() {
    let css = Intermediate::build(colors(), vec![single("vars", "colors")]).stringify();
    assert_eq!(css, ":root{--blue:#00f;--red:#f00;}\n");
}

#[test]
fn many_rules_make_one_rule_per_token() {
    let css = Intermediate::build(colors(), vec![many("bg", "colors")]).stringify();
    assert_eq!(css, ".bg-blue{background-color:#00f;}\n.bg-red{background-color:#f00;}\n");
}

#[test]
fn families_are_written_in_id_order_then_at_rules() {
    let ts = vec![
        many("b-bg", "colors"),
        single("a-vars", "space"),
        copy("md", &["b-bg"], Some("@media (min-width: 768px)"), ".md\\:{{ PREV_SELECTOR_CLASS_NAME }}"),
    ];
    let css = Intermediate::build(colors(), ts).stringify();
    assert_eq!(
        css,
        ":root{--1:4px;}\n.bg-blue{background-color:#00f;}\n.bg-red{background-color:#f00;}\n\
@media (min-width: 768px) {\n.md\\:bg-blue{background-color:#00f;}\n.md\\:bg-red{background-color:#f00;}\n}"
    );
}

#[test]
fn copies_keep_declarations_and_replace_selectors() {
    let ts = vec![
        many("bg", "colors"),
        copy("hover", &["bg"], None, "{{ PREV_SELECTOR }}:hover"),
    ];
    let i = Intermediate::build(colors(), ts);
    let family = i.normal_rules.get("hover").unwrap();
    assert_eq!(family.css_rules.len(), 2);
    assert_eq!(family.css_rules[0].selector, ".bg-blue:hover");
    assert_eq!(family.css_rules[1].selector, ".bg-red:hover");
    assert_eq!(family.css_rules[0].declarations.get("background-color"), Some(&"#00f".to_string()));
    assert_eq!(i.at_rules.len(), 0);
}

#[test]
fn later_transformation_with_same_id_replaces_earlier() {
    let ts = vec![many("x", "colors"), single("x", "space")];
    let css = Intermediate::build(colors(), ts).stringify();
    assert_eq!(css, ":root{--1:4px;}\n");
}

#[test]
fn rules_taken_as_they_are() {
    let ts = vec![Transformation::NoTransformation(NoTransformation {
        id: "plain".to_string(),
        description: "".to_string(),
        at_rule_identifier: Some("@media print".to_string()),
        rules: vec![CSSRule { selector: ".p".to_string(), declarations: decls(&[("color", "black")]) }],
    })];
    let css = Intermediate::build(colors(), ts).stringify();
    assert_eq!(css, "@media print {\n.p{color:black;}\n}");
}

#[test]
fn missing_group_is_refused_with_its_message() {
    let r = Intermediate::try_build(&colors(), &vec![many("bg", "colours")]);
    assert_eq!(r.err(), Some("There is no input group named \"colours\"".to_string()));
    assert_eq!(err_msg_for_missing_map("colours"), "There is no input group named \"colours\"");
}

#[test]
fn copying_a_missing_family_is_refused_with_its_message() {
    let r = Intermediate::try_build(&colors(), &vec![many("bg", "colors"), copy("c", &["bg", "fg", "zz"], None, "x")]);
    assert_eq!(r.err(), Some("copies: There is no transformation named fg".to_string()));
    assert_eq!(err_msg_for_missing_transformation("d", "id"), "d: There is no transformation named id");
}

#[test]
fn a_copy_cannot_see_itself_or_later_families() {
    let r = Intermediate::try_build(&colors(), &vec![copy("c", &["c"], None, "x"), many("c", "colors")]);
    assert_eq!(r.err(), Some("copies: There is no transformation named c".to_string()));
}

#[test]
fn empty_build_is_empty_css() {
    let i = Intermediate::build(colors(), vec![]);
    assert_eq!(i.stringify(), "");
}

#[test]
fn rules_are_written_one_per_line() {
    let rules = vec![
        CSSRule { selector: ".a".to_string(), declarations: decls(&[("b", "1"), ("a", "2")]) },
        CSSRule { selector: ".e".to_string(), declarations: Declarations::new() },
    ];
    assert_eq!(stringify_rules(&rules), ".a{a:2;b:1;}\n.e{}\n");
}

#[test]
fn derived_declarations_come_out_in_property_order() {
    let mut written = Declarations::new();
    written.insert_in_order("margin-{{ KEY }}".to_string(), "{{ VAL }}".to_string());
    written.insert_in_order("color-{{ KEY }}".to_string(), "{{ VAL }}".to_string());
    let t = Transformation::SingleRuleFromTokenGroup(FromTokenGroup {
        id: "vars".to_string(),
        description: "".to_string(),
        token_group_name: "space".to_string(),
        selector: ":root".to_string(),
        declarations: written,
    });
    let css = Intermediate::build(colors(), vec![t]).stringify();
    assert_eq!(css, ":root{color-1:4px;margin-1:4px;}\n");
}

#[test]
fn rules_written_together_are_each_written_in_turn() {
    let a = vec![CSSRule { selector: ".a".to_string(), declarations: decls(&[("x", "1")]) }];
    let b = vec![
        CSSRule { selector: ".b".to_string(), declarations: decls(&[("z", "2"), ("y", "3")]) },
        CSSRule { selector: ".c".to_string(), declarations: Declarations::new() },
    ];
    let both = vec![
        CSSRule { selector: ".a".to_string(), declarations: decls(&[("x", "1")]) },
        CSSRule { selector: ".b".to_string(), declarations: decls(&[("z", "2"), ("y", "3")]) },
        CSSRule { selector: ".c".to_string(), declarations: Declarations::new() },
    ];
    assert_eq!(stringify_rules(&both), stringify_rules(&a) + &stringify_rules(&b));
    assert_eq!(stringify_rules(&both), ".a{x:1;}\n.b{y:3;z:2;}\n.c{}\n");
    assert_eq!(stringify_rules(&vec![]), "");
}
