use moonshine::css::{CSSRule, Declarations};
use moonshine::instruction::{
    err_msg_for_missing_instruction, err_msg_for_missing_map, generate_rules, stringify_rules, try_generate_rules,
    AddClassModifier, Config, FromVariableGroup, Instruction, ManyRulesFromVariableGroup,
};
use moonshine::strmap::StrMap;

fn map(pairs: &[(&str, &str)]) -> StrMap<String> {
    let mut m = StrMap::new();
    for (k, v) in pairs {
        m.insert(k.to_string(), v.to_string());
    }
    m
}

fn decls(pairs: &[(&str, &str)]) -> Declarations {
    let mut d = Declarations::new();
    for (k, v) in pairs {
        d.insert(k.to_string(), v.to_string());
    }
    d
}

fn config(instructions: Vec<Instruction>) -> Config {
    let mut groups = StrMap::new();
    groups.insert("colors".to_string(), map(&[("red", "#f00"), ("blue", "#00f")]));
    Config { variable_groups: groups, instructions }
}

fn many(id: &str) -> Instruction {
    Instruction::ManyRulesFromVariableGroup(ManyRulesFromVariableGroup {
        id: id.to_string(),
        description: "text colors".to_string(),
        variable_group: "colors".to_string(),
        rules: vec![
            CSSRule { selector: ".c-{{ KEY }}".to_string(), declarations: decls(&[("color", "{{ VAL }}")]) },
            CSSRule { selector: "a.{{ KEY }}".to_string(), declarations: decls(&[("color", "{{ VAL }}")]) },
        ],
    })
}

fn modifier(id: &str, ids: &[&str]) -> Instruction {
    Instruction::AddClassModifier(AddClassModifier {
        id: id.to_string(),
        description: "hover".to_string(),
        affected_ids: ids.iter().map(|s| s.to_string()).collect(),
        class_prefix: "hover-".to_string(),
        represents_pseudo_class: "hover".to_string(),
    })
}

#[test]
fn rules_are_gathered_in_id_order() {
    let rules = generate_rules(config(vec![
        many("b"),
        Instruction::SingleRuleFromVariableGroup(FromVariableGroup {
            id: "a".to_string(),
            description: "vars".to_string(),
            variable_group: "colors".to_string(),
            selector: ":root".to_string(),
            declarations: decls(&[("--{{ KEY }}", "{{ VAL }}")]),
        }),
    ]));
    assert_eq!(
        stringify_rules(rules),
        ":root{--blue:#00f;--red:#f00;}\n.c-blue{color:#00f;}\n.c-red{color:#f00;}\na.blue{color:#00f;}\na.red{color:#f00;}\n"
    );
}

#[test]
fn class_modifier_prefixes_classes_and_skips_other_selectors() {
    let rules = generate_rules(config(vec![many("c"), modifier("h", &["c"])]));
    let css = stringify_rules(rules);
    assert_eq!(
        css,
        ".c-blue{color:#00f;}\n.c-red{color:#f00;}\na.blue{color:#00f;}\na.red{color:#f00;}\n\
.hover-c-blue:hover{color:#00f;}\n.hover-c-red:hover{color:#f00;}\n"
    );
}

#[test]
fn missing_variable_map_and_instruction_are_refused() {
    let bad_group = Instruction::ManyRulesFromVariableGroup(ManyRulesFromVariableGroup {
        id: "x".to_string(),
        description: "spacing".to_string(),
        variable_group: "space".to_string(),
        rules: vec![],
    });
    assert_eq!(
        try_generate_rules(&config(vec![bad_group])).err(),
        Some("spacing: There is no variable map named space".to_string())
    );
    assert_eq!(
        try_generate_rules(&config(vec![modifier("h", &["c"])])).err(),
        Some("hover: There is no instruction named c".to_string())
    );
    assert_eq!(err_msg_for_missing_map("d", "g"), "d: There is no variable map named g");
    assert_eq!(err_msg_for_missing_instruction("d", "i"), "d: There is no instruction named i");
}
